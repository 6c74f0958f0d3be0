//! What writes and closes keep, whatever the file system answers.

use vstd::prelude::*;
use vstd::utf8::{decode_utf8, encode_utf8, valid_utf8};

use crate::config::ConfigView;
use crate::files::{source_ok, OwnedView, SourceView};
use crate::format::{
    behind_header, described, header_bytes, header_length_of, header_of,
    law_written_file_reads_back, read_fault, HeaderError, RecoveryMetadata,
};
use crate::model::{
    action_of, admitted, all_archived, archive_destination, backups_of, check_of,
    directory_of_file, enter_archive, enter_remove, enter_retire, event_fault, fits,
    identity_fault, lemma_archive_ok, lemma_remove_ok, lemma_step_ok, lemma_without_uncopied,
    plan_ok, progress_ok, published, released_paths, step_of, swap_ok, target_path, temporary_file,
    without_uncopied, work_ok, SwapView,
};
use crate::names::{
    archive_name_of, is_archive, lemma_published_is_no_archive, lemma_renamed, published_name_of,
    ARCHIVE_PREFIX, PREFIX,
};
use crate::paths::{
    components, file_name_of, is_absolute, joined, law_join_components,
    law_parent_drops_last_component, lemma_joined_name, lemma_no_separator, parent_of, pieces,
    same_path,
};
use crate::snapshot::{snapshot_fault, SnapshotView};
use crate::swap::{
    attempted, closing, current_path, fenced, holds_lock, locked_by, migrates, plan_of, shut,
    source_holds, write_verdict, WriteError,
};
use crate::work::{
    ActionView, ArchiveStep, CauseView, EventView, PlanView, ProgressView, PublishStep, RemoveStep,
    Stage, TroubleView, WorkView, WritePlanView,
};

verus! {

/// What a write or a close comes to after some events.
pub open spec fn run(s: SwapView, p: ProgressView, events: Seq<EventView>) -> (
    SwapView,
    ProgressView,
)
    decreases events.len(),
{
    if events.len() == 0 {
        (s, p)
    } else {
        let (s, p) = run(s, p, events.drop_last());
        match p {
            ProgressView::Continue(w) => step_of(s, w, events.last()),
            _ => (s, p),
        }
    }
}

/// What was asked for before the event of this index.
pub open spec fn asked(s: SwapView, p: ProgressView, events: Seq<EventView>, i: int) -> ActionView {
    let (s, p) = run(s, p, events.take(i));
    action_of(s, p->Continue_0)
}

/// Every event can have come of what was asked for, and the lists stay in memory.
pub open spec fn possible(s: SwapView, p: ProgressView, events: Seq<EventView>) -> bool
    decreases events.len(),
{
    events.len() > 0 ==> {
        let before = run(s, p, events.drop_last());
        &&& possible(s, p, events.drop_last())
        &&& before.1 is Continue
        &&& admitted(action_of(before.0, before.1->Continue_0), events.last())
        &&& fits(run(s, p, events).0)
    }
}

/// An action without an answer of its own went well.
pub open spec fn succeeded(event: EventView) -> bool {
    event matches EventView::Done(r) && r is Ok
}

/// What is stated of work in progress holds all along.
pub proof fn lemma_run_ok(s: SwapView, p: ProgressView, events: Seq<EventView>)
    requires
        progress_ok(s, p),
        possible(s, p, events),
    ensures
        progress_ok(run(s, p, events).0, run(s, p, events).1),
    decreases events.len(),
{
    if events.len() > 0 {
        lemma_run_ok(s, p, events.drop_last());
        let (s1, p1) = run(s, p, events.drop_last());
        lemma_step_ok(s1, p1->Continue_0, events.last());
    }
}

/// Law: a generation that was attempted fences off every older one, also where the attempt
/// failed, and a closed swap takes no write at all.
pub proof fn law_attempts_fence_older_writes(
    s: SwapView,
    generation: u64,
    later: u64,
    snapshot: SnapshotView,
    config: ConfigView,
    reachable: bool,
)
    ensures
        s.last_generation matches Some(last) ==> (attempted(
            s,
            generation,
        ).last_generation matches Some(now) && now >= last),
        !fenced(s, generation) && later < generation ==> {
            &&& write_verdict(attempted(s, generation), snapshot, config, later, reachable)
                == Ok::<bool, WriteError>(false)
            &&& attempted(attempted(s, generation), later) == attempted(s, generation)
        },
        !fenced(s, generation) ==> !fenced(attempted(s, generation), generation),
        s.closed ==> attempted(s, generation) == s && write_verdict(
            s,
            snapshot,
            config,
            generation,
            reachable,
        ) == Ok::<bool, WriteError>(false),
{
}

/// Law: the first close fixes the retention, and a later one cannot change it.
pub proof fn law_first_close_fixes_retention(s: SwapView, first: bool, later: bool)
    ensures
        shut(shut(s, first), later) == shut(s, first),
        !s.closed ==> shut(s, first).retain_recovered == first,
        shut(s, first).closed,
{
}

/// Law: no step of a write or a close changes the fence: neither the newest generation, nor
/// whether the swap is closed, nor the retention.
#[verifier::rlimit(30)]
pub proof fn law_steps_keep_the_fence(s: SwapView, w: WorkView, event: EventView)
    requires
        work_ok(s, w),
        admitted(action_of(s, w), event),
    ensures
        ({
            let next = step_of(s, w, event).0;
            &&& next.last_generation == s.last_generation
            &&& next.closed == s.closed
            &&& next.retain_recovered == s.retain_recovered
        }),
{
}

/// Law: a file is unlinked only right after its path was seen to name the file that is owned.
#[verifier::rlimit(30)]
pub proof fn law_unlink_follows_check(s: SwapView, w: WorkView, event: EventView)
    requires
        work_ok(s, w),
        admitted(action_of(s, w), event),
        fits(step_of(s, w, event).0),
    ensures
        step_of(s, w, event).1 matches ProgressView::Continue(next) ==> (action_of(
            step_of(s, w, event).0,
            next,
        ) matches ActionView::Unlink(path) ==> {
            &&& action_of(s, w) matches ActionView::Check { path: checked, lock }
            &&& checked == path
            &&& event == EventView::Checked(Ok(true))
        }),
{
    lemma_step_ok(s, w, event);
}

/// Law: a write removes only files that it owns, never the newest one, and only once every
/// recovered original is copied. So does a close that retains recovered files; it never removes
/// a copy.
pub proof fn law_removal_spares_the_newest_and_the_copies(s: SwapView, w: WorkView)
    requires
        work_ok(s, w),
    ensures
        action_of(s, w) matches ActionView::Unlink(path) ==> {
            &&& w.plan is Write || s.retain_recovered ==> {
                &&& all_archived(s)
                &&& exists|i: int|
                    {
                        &&& 0 <= i < s.files.len()
                        &&& (#[trigger] s.files[i]).path == path
                        &&& w.plan is Write ==> i < s.files.len() - 1
                    }
            }
        },
{
    if action_of(s, w) is Unlink {
        match w.stage {
            Stage::Remove(i, step) => {
                assert(s.files[i - 1].path == action_of(s, w)->Unlink_0);
            },
            _ => {},
        }
    }
}

/// Law: what a path names is replaced only by a write, only at the path of the newest owned file,
/// right after that path was seen to name the file that is owned, and only once every recovered
/// original is copied. Every other publication refuses to replace anything.
pub proof fn law_replacement_follows_check(s: SwapView, w: WorkView, event: EventView)
    requires
        work_ok(s, w),
        admitted(action_of(s, w), event),
        fits(step_of(s, w, event).0),
    ensures
        step_of(s, w, event).1 matches ProgressView::Continue(next) ==> (action_of(
            step_of(s, w, event).0,
            next,
        ) matches ActionView::Persist { destination, replace } ==> (replace ==> {
            &&& next.plan is Write
            &&& all_archived(s)
            &&& s.files.len() > 0
            &&& destination == s.files.last().path
            &&& action_of(s, w) == check_of(s.files.last())
            &&& event == EventView::Checked(Ok(true))
        })),
{
    lemma_step_ok(s, w, event);
}

/// Law: ownership of a file ends only by its removal, once the directory is synced, or by its
/// replacement with the snapshot that is published in its place. Until a snapshot is published
/// every owned file stays.
pub proof fn law_files_stay_owned(s: SwapView, w: WorkView, event: EventView)
    requires
        work_ok(s, w),
        admitted(action_of(s, w), event),
    ensures
        ({
            let next = step_of(s, w, event).0;
            ||| next.files == s.files
            ||| {
                &&& succeeded(event)
                &&& action_of(s, w) is SyncDirectory
                &&& w.stage matches Stage::Remove(i, step)
                &&& step is Sync
                &&& next.files == s.files.remove(i - 1)
            }
            ||| {
                &&& succeeded(event)
                &&& action_of(s, w) is Persist
                &&& w.plan matches PlanView::Write(plan)
                &&& next.files.len() > 0
                &&& next.files.drop_last() == (if plan.migrate {
                    s.files
                } else {
                    s.files.drop_last()
                })
            }
        }),
{
    match w.stage {
        Stage::Publish(k, step) => {
            let next = step_of(s, w, event).0;
            if next.files != s.files {
                let plan = w.plan->Write_0;
                let kept = if plan.migrate {
                    s.files
                } else {
                    s.files.drop_last()
                };
                assert(kept.push(next.files.last()).drop_last() =~= kept);
            }
        },
        _ => {},
    }
}

/// Law: a recovered original is let go of only once its copy is published, seen to be the file
/// that is owned, and its directory synced. Before that the original stays owned, with its copy
/// where there is one.
pub proof fn law_originals_stay_until_the_copy_is_durable(
    s: SwapView,
    w: WorkView,
    event: EventView,
    i: int,
)
    requires
        work_ok(s, w),
        admitted(action_of(s, w), event),
        0 <= i < s.recovered.len(),
        s.recovered[i].original is Some,
        w.plan is Write || s.retain_recovered,
    ensures
        ({
            let next = step_of(s, w, event);
            ||| {
                &&& next.0.recovered.len() == s.recovered.len()
                &&& next.0.recovered[i].original == s.recovered[i].original
                &&& s.recovered[i].archive is Some ==> next.0.recovered[i] == s.recovered[i]
            }
            ||| {
                &&& s.recovered[i].archive matches Some(archive)
                &&& w.stage == Stage::Archive(i as usize, ArchiveStep::Sync)
                &&& action_of(s, w) == ActionView::SyncDirectory(directory_of_file(archive))
                &&& succeeded(event)
            }
        }),
{
}

/// Law: work on a directory goes in order. A write starts to remove older files only after the
/// directory of the published snapshot is synced.
pub proof fn law_cleanup_follows_durable_publication(s: SwapView, w: WorkView, event: EventView)
    requires
        work_ok(s, w),
        admitted(action_of(s, w), event),
        w.plan is Write,
    ensures
        step_of(s, w, event).1 matches ProgressView::Continue(next) ==> (next.stage is Remove
            && !(w.stage is Remove) ==> {
            &&& w.stage is Settle
            &&& action_of(s, w) == ActionView::SyncDirectory(directory_of_file(s.files.last()))
            &&& succeeded(event)
        }),
        step_of(s, w, event).1 is Written && !(w.stage is Remove) ==> {
            &&& w.stage is Settle
            &&& succeeded(event)
        },
{
}

/// Nothing is published yet: what is owned and where it came from is unchanged.
pub open spec fn unpublished(start: SwapView, s: SwapView) -> bool {
    &&& s.files == start.files
    &&& s.source_path == start.source_path
    &&& s.source_cwd == start.source_cwd
    &&& s.directories == start.directories
    &&& s.suffix == start.suffix
}

/// The snapshot is published: the newest owned file is at the path of the one that it replaced,
/// or under a name of its own in one of the directories. Every other owned file was owned before.
pub open spec fn newest_published(start: SwapView, plan: WritePlanView, s: SwapView) -> bool {
    &&& s.files.len() > 0
    &&& s.source_path == plan.snapshot.path
    &&& s.source_cwd == plan.snapshot.cwd
    &&& s.directories == plan.directories
    &&& s.suffix == plan.suffix
    &&& !plan.migrate ==> start.files.len() > 0 && s.files.last().path == start.files.last().path
    &&& plan.migrate ==> exists|k: int, name: Seq<u8>|
        {
            &&& 0 <= k < plan.directories.len()
            &&& temporary_file(name)
            &&& s.files.last().path == #[trigger] joined(
                plan.directories[k],
                published_name_of(name),
            )
        }
    &&& forall|i: int| 0 <= i < s.files.len() - 1 ==> start.files.contains(#[trigger] s.files[i])
}

/// What a write that started from `start` can come to.
pub open spec fn write_course(
    start: SwapView,
    plan: WritePlanView,
    s: SwapView,
    p: ProgressView,
) -> bool {
    &&& s.closed == start.closed
    &&& s.last_generation == start.last_generation
    &&& s.retained_archives == start.retained_archives
    &&& match p {
        ProgressView::Continue(w) => {
            &&& w.plan == PlanView::Write(plan)
            &&& match w.stage {
                Stage::Archive(_, _) | Stage::Publish(_, _) => unpublished(start, s),
                Stage::Settle | Stage::Remove(_, _) => newest_published(start, plan, s),
                Stage::Retire(_) => false,
            }
        },
        ProgressView::Written(path) => {
            &&& newest_published(start, plan, s)
            &&& s.files.len() == 1
            &&& current_path(s) == Some(path)
            &&& all_archived(s)
        },
        ProgressView::Closed(_) => false,
        ProgressView::Failed(failure) => {
            &&& failure.backups == Seq::<Seq<u8>>::empty()
            &&& match failure.cause {
                CauseView::Fault(_)
                | CauseView::SyncArchive(_, _)
                | CauseView::NoUsableDirectory(_) => unpublished(start, s),
                CauseView::SyncPublished(_, _) | CauseView::Cleanup(_) => newest_published(
                    start,
                    plan,
                    s,
                ),
            }
        },
    }
}

/// The start of a write that was found to be due.
pub open spec fn write_started(start: SwapView, plan: WritePlanView) -> bool {
    &&& swap_ok(start)
    &&& !start.closed
    &&& plan_ok(PlanView::Write(plan))
    &&& !plan.migrate ==> start.files.len() > 0
}

proof fn lemma_write_step(
    start: SwapView,
    plan: WritePlanView,
    s: SwapView,
    w: WorkView,
    event: EventView,
)
    requires
        write_started(start, plan),
        work_ok(s, w),
        write_course(start, plan, s, ProgressView::Continue(w)),
        admitted(action_of(s, w), event),
        fits(step_of(s, w, event).0),
    ensures
        write_course(start, plan, step_of(s, w, event).0, step_of(s, w, event).1),
{
    lemma_step_ok(s, w, event);
    let next = step_of(s, w, event).0;
    match w.stage {
        Stage::Publish(k, step) => {
            match step {
                PublishStep::Persist(lock) => {
                    if next.files != s.files {
                        let kept = if plan.migrate {
                            s.files
                        } else {
                            s.files.drop_last()
                        };
                        assert(next.files == kept.push(next.files.last()));
                        assert forall|i: int|
                            0 <= i < next.files.len() - 1 implies start.files.contains(
                            #[trigger] next.files[i],
                        ) by {
                            assert(next.files[i] == start.files[i]);
                        }
                        if plan.migrate {
                            assert(next.files.last().path == joined(
                                plan.directories[k as int],
                                published_name_of(w.name),
                            ));
                        }
                    }
                },
                _ => {},
            }
        },
        Stage::Remove(i, step) => {
            if next.files != s.files {
                let i = i as int;
                assert(next.files == s.files.remove(i - 1));
                assert(next.files.last() == s.files.last());
                assert forall|j: int| 0 <= j < next.files.len() - 1 implies start.files.contains(
                    #[trigger] next.files[j],
                ) by {
                    if j < i - 1 {
                        assert(next.files[j] == s.files[j]);
                    } else {
                        assert(next.files[j] == s.files[j + 1]);
                    }
                }
            }
        },
        _ => {},
    }
}

/// Law: what a write comes to, whatever the file system answers. On success exactly one file is
/// owned, the published snapshot, at the path that is reported; it is the path of the file that
/// it replaced unless the write moved. A failure before publication leaves every owned file and
/// the current path as they were. A failure behind it keeps the published snapshot as the newest
/// file, together with the files that are left. The fence is kept either way.
pub proof fn law_write_outcome(start: SwapView, plan: WritePlanView, events: Seq<EventView>)
    requires
        write_started(start, plan),
        ({
            let begun = enter_archive(start, PlanView::Write(plan), 0);
            possible(begun.0, begun.1, events)
        }),
    ensures
        ({
            let begun = enter_archive(start, PlanView::Write(plan), 0);
            let ended = run(begun.0, begun.1, events);
            write_course(start, plan, ended.0, ended.1)
        }),
    decreases events.len(),
{
    let begun = enter_archive(start, PlanView::Write(plan), 0);
    lemma_archive_ok(start, PlanView::Write(plan), 0);
    if events.len() > 0 {
        law_write_outcome(start, plan, events.drop_last());
        lemma_run_ok(begun.0, begun.1, events.drop_last());
        let (s, p) = run(begun.0, begun.1, events.drop_last());
        lemma_write_step(start, plan, s, p->Continue_0, events.last());
    }
}

/// Law: the path stays stable. After a write that succeeded, a further write of the same original,
/// or of the same working directory where it is unnamed, with the same directories and suffix,
/// replaces the file at the same path.
pub proof fn law_path_stays_stable(
    start: SwapView,
    plan: WritePlanView,
    s: SwapView,
    path: Seq<u8>,
    again: SnapshotView,
)
    requires
        write_started(start, plan),
        plan.migrate || !is_archive(start.files.last().path),
        write_course(start, plan, s, ProgressView::Written(path)),
        again.path == plan.snapshot.path,
        again.path is None ==> again.cwd == plan.snapshot.cwd,
    ensures
        !migrates(s, again, plan.directories, plan.suffix),
        current_path(s) == Some(path),
{
    if plan.migrate {
        let (k, name) = choose|k: int, name: Seq<u8>|
            {
                &&& 0 <= k < plan.directories.len()
                &&& temporary_file(name)
                &&& s.files.last().path == #[trigger] joined(
                    plan.directories[k],
                    published_name_of(name),
                )
            };
        lemma_published_is_no_archive(plan.directories[k], name);
    }
}

/// What a close of `start` can come to; `start` is already shut.
pub open spec fn close_course(start: SwapView, s: SwapView, p: ProgressView) -> bool {
    &&& s.closed
    &&& s.retain_recovered == start.retain_recovered
    &&& s.last_generation == start.last_generation
    &&& match p {
        ProgressView::Continue(w) => {
            &&& w.plan is Close
            &&& s.retained_archives == start.retained_archives
            &&& s.retain_recovered ==> s.recovered.len() == start.recovered.len()
            &&& !s.retain_recovered ==> s.recovered.len() <= start.recovered.len() && s.recovered
                == start.recovered.take(s.recovered.len() as int)
        },
        ProgressView::Written(_) => false,
        ProgressView::Closed(paths) => {
            &&& s.files.len() == 0
            &&& s.recovered.len() == 0
            &&& paths == s.retained_archives
            &&& s.retain_recovered ==> paths.len() == start.retained_archives.len()
                + start.recovered.len()
            &&& !s.retain_recovered ==> paths == start.retained_archives
        },
        ProgressView::Failed(failure) => {
            &&& failure.backups == backups_of(s)
            &&& s.retained_archives == start.retained_archives
            &&& s.retain_recovered ==> s.recovered.len() == start.recovered.len()
        },
    }
}

proof fn lemma_released(recovered: Seq<SourceView>)
    requires
        forall|i: int| 0 <= i < recovered.len() ==> (#[trigger] recovered[i]).archive is Some,
    ensures
        released_paths(recovered).len() == recovered.len(),
    decreases recovered.len(),
{
    if recovered.len() > 0 {
        let front = recovered.drop_last();
        assert forall|i: int| 0 <= i < front.len() implies (
        #[trigger] front[i]).archive is Some by {
            assert(front[i] == recovered[i]);
        }
        lemma_released(front);
        assert(recovered.last().archive is Some);
    }
}

/// Letting go of the copies follows the course of a close.
proof fn lemma_close_retire(start: SwapView, s: SwapView)
    requires
        swap_ok(s),
        s.closed,
        s.files.len() == 0,
        s.retain_recovered == start.retain_recovered,
        s.last_generation == start.last_generation,
        s.retained_archives == start.retained_archives,
        s.retain_recovered ==> all_archived(s) && s.recovered.len() == start.recovered.len(),
        !s.retain_recovered ==> s.recovered.len() <= start.recovered.len() && s.recovered
            == start.recovered.take(s.recovered.len() as int),
    ensures
        close_course(start, enter_retire(s).0, enter_retire(s).1),
{
    lemma_without_uncopied(s.recovered);
    if s.retain_recovered {
        lemma_released(s.recovered);
    } else {
        let kept = without_uncopied(s.recovered);
        assert(kept =~= start.recovered.take(kept.len() as int));
    }
}

proof fn lemma_close_remove(start: SwapView, s: SwapView, end: int, troubles: Seq<TroubleView>)
    requires
        swap_ok(s),
        s.closed,
        s.retain_recovered == start.retain_recovered,
        s.last_generation == start.last_generation,
        s.retained_archives == start.retained_archives,
        s.retain_recovered ==> all_archived(s) && s.recovered.len() == start.recovered.len(),
        !s.retain_recovered ==> s.recovered.len() <= start.recovered.len() && s.recovered
            == start.recovered.take(s.recovered.len() as int),
        0 <= end,
        end + troubles.len() == s.files.len(),
    ensures
        close_course(
            start,
            enter_remove(s, PlanView::Close, end, troubles).0,
            enter_remove(s, PlanView::Close, end, troubles).1,
        ),
{
    if end == 0 && troubles.len() == 0 {
        lemma_close_retire(start, s);
    }
}

proof fn lemma_close_archive(start: SwapView, s: SwapView, i: int)
    requires
        swap_ok(s),
        s.closed,
        s.retain_recovered,
        start.retain_recovered,
        s.last_generation == start.last_generation,
        s.retained_archives == start.retained_archives,
        s.recovered.len() == start.recovered.len(),
        0 <= i <= s.recovered.len(),
        forall|j: int| 0 <= j < i ==> (#[trigger] s.recovered[j]).original is None,
    ensures
        close_course(
            start,
            enter_archive(s, PlanView::Close, i).0,
            enter_archive(s, PlanView::Close, i).1,
        ),
{
    if i == s.recovered.len() {
        assert forall|j: int| 0 <= j < s.recovered.len() implies (
        #[trigger] s.recovered[j]).original is None && s.recovered[j].archive is Some by {
            assert(source_ok(s.recovered[j]));
        }
        lemma_close_remove(start, s, s.files.len() as int, Seq::empty());
    }
}

proof fn lemma_close_step(start: SwapView, s: SwapView, w: WorkView, event: EventView)
    requires
        start.closed,
        work_ok(s, w),
        close_course(start, s, ProgressView::Continue(w)),
        admitted(action_of(s, w), event),
        fits(step_of(s, w, event).0),
    ensures
        close_course(start, step_of(s, w, event).0, step_of(s, w, event).1),
{
    lemma_step_ok(s, w, event);
    match w.stage {
        Stage::Archive(i, step) => {
            let i = i as int;
            let source = s.recovered[i];
            assert(source_ok(source));
            match step {
                ArchiveStep::Verify => {
                    lemma_close_archive(start, s, i + 1);
                },
                ArchiveStep::Sync => {
                    let next = SwapView {
                        recovered: s.recovered.update(i, SourceView { original: None, ..source }),
                        ..s
                    };
                    lemma_close_archive(start, next, i + 1);
                },
                _ => {},
            }
        },
        Stage::Remove(i, step) => {
            let i = i as int;
            match event_fault(event) {
                Some(fault) => {
                    lemma_close_remove(
                        start,
                        s,
                        i - 1,
                        w.troubles.push(TroubleView { path: s.files[i - 1].path, fault }),
                    );
                },
                None => {
                    if step is Sync {
                        let next = SwapView { files: s.files.remove(i - 1), ..s };
                        lemma_close_remove(start, next, i - 1, w.troubles);
                    }
                },
            }
        },
        Stage::Retire(step) => {
            if event_fault(event) is None && step is Sync {
                let next = SwapView { recovered: s.recovered.drop_last(), ..s };
                assert(next.recovered =~= start.recovered.take(next.recovered.len() as int));
                lemma_close_retire(start, next);
            }
        },
        _ => {},
    }
}

/// Law: what a close comes to, whatever the file system answers. Success leaves nothing owned.
/// Where recovered files are retained, the reported paths are those retained before and one for
/// every recovered file; otherwise only those retained before. A failure reports the backups that
/// are left, and the swap stays closed with its retention, so that a retry goes on from there.
pub proof fn law_close_outcome(s: SwapView, retain: bool, events: Seq<EventView>)
    requires
        swap_ok(s),
        ({
            let begun = closing(s, retain);
            possible(begun.0, begun.1, events)
        }),
    ensures
        ({
            let begun = closing(s, retain);
            let ended = run(begun.0, begun.1, events);
            close_course(shut(s, retain), ended.0, ended.1)
        }),
    decreases events.len(),
{
    let start = shut(s, retain);
    let begun = closing(s, retain);
    if start.retain_recovered {
        lemma_archive_ok(start, PlanView::Close, 0);
        lemma_close_archive(start, start, 0);
    } else {
        lemma_remove_ok(start, PlanView::Close, start.files.len() as int, Seq::empty());
        assert(start.recovered =~= start.recovered.take(start.recovered.len() as int));
        lemma_close_remove(start, start, start.files.len() as int, Seq::empty());
    }
    if events.len() > 0 {
        law_close_outcome(s, retain, events.drop_last());
        lemma_run_ok(begun.0, begun.1, events.drop_last());
        let (now, p) = run(begun.0, begun.1, events.drop_last());
        lemma_close_step(start, now, p->Continue_0, events.last());
    }
}

/// A stage behind the flush of the temporary file.
pub open spec fn behind_flush(stage: Stage) -> bool {
    match stage {
        Stage::Archive(_, step) => step is Recheck || step is Lock || step is Identify
            || step is Persist,
        Stage::Publish(_, step) => step is Lock || step is Identify || step is Previous
            || step is Persist,
        _ => false,
    }
}

proof fn lemma_flush_step(s: SwapView, w: WorkView, event: EventView)
    requires
        work_ok(s, w),
        admitted(action_of(s, w), event),
    ensures
        step_of(s, w, event).1 matches ProgressView::Continue(next) ==> (behind_flush(next.stage)
            ==> {
            ||| behind_flush(w.stage) && !(action_of(s, w) is Stage) && !(action_of(
                s,
                w,
            ) is CopyOriginal)
            ||| action_of(s, w) is SyncTemporary && succeeded(event)
        }),
{
}

/// A temporary file was flushed at `i`, and no other was started since.
pub open spec fn flushed_at(s: SwapView, p: ProgressView, events: Seq<EventView>, i: int) -> bool {
    &&& 0 <= i < events.len()
    &&& asked(s, p, events, i) is SyncTemporary
    &&& succeeded(events[i])
    &&& forall|j: int|
        i < j < events.len() ==> !((#[trigger] asked(s, p, events, j)) is Stage || asked(
            s,
            p,
            events,
            j,
        ) is CopyOriginal)
}

/// Law: a file is published only after its contents were flushed: when the work asks to rename a
/// temporary file, that file was flushed successfully before, and no other was started since.
pub proof fn law_published_contents_are_flushed(
    s: SwapView,
    p: ProgressView,
    events: Seq<EventView>,
)
    requires
        progress_ok(s, p),
        p matches ProgressView::Continue(w) ==> !behind_flush(w.stage),
        possible(s, p, events),
    ensures
        run(s, p, events).1 matches ProgressView::Continue(w) ==> (behind_flush(w.stage)
            ==> exists|i: int| flushed_at(s, p, events, i)),
        run(s, p, events).1 matches ProgressView::Continue(w) ==> (action_of(
            run(s, p, events).0,
            w,
        ) is Persist ==> behind_flush(w.stage)),
    decreases events.len(),
{
    lemma_run_ok(s, p, events);
    if events.len() > 0 {
        let front = events.drop_last();
        law_published_contents_are_flushed(s, p, front);
        lemma_run_ok(s, p, front);
        lemma_flushed_so_far(s, p, events);
    }
}

/// The flush of a run with one more event.
proof fn lemma_flushed_so_far(s: SwapView, p: ProgressView, events: Seq<EventView>)
    requires
        events.len() > 0,
        possible(s, p, events),
        progress_ok(run(s, p, events.drop_last()).0, run(s, p, events.drop_last()).1),
        run(s, p, events.drop_last()).1 matches ProgressView::Continue(w) ==> (behind_flush(
            w.stage,
        ) ==> exists|i: int| flushed_at(s, p, events.drop_last(), i)),
    ensures
        run(s, p, events).1 matches ProgressView::Continue(w) ==> (behind_flush(w.stage)
            ==> exists|i: int| flushed_at(s, p, events, i)),
{
    let front = events.drop_last();
    let last = events.len() - 1;
    let before = run(s, p, front);
    let w = before.1->Continue_0;
    let event = events.last();
    assert(events.take(last) =~= front);
    assert(run(s, p, events) == step_of(before.0, w, event));
    assert(asked(s, p, events, last) == action_of(before.0, w));
    assert forall|j: int| 0 <= j < last implies asked(s, p, events, j) == asked(s, p, front, j) by {
        assert(events.take(j) =~= front.take(j));
    }
    lemma_flush_step(before.0, w, event);
    let after = run(s, p, events).1;
    if after is Continue && behind_flush(after->Continue_0.stage) {
        if action_of(before.0, w) is SyncTemporary && succeeded(event) {
            assert(flushed_at(s, p, events, last));
        } else {
            let i = choose|i: int| flushed_at(s, p, front, i);
            assert(front[i] == events[i]);
            assert forall|j: int| i < j < events.len() implies !((#[trigger] asked(
                s,
                p,
                events,
                j,
            )) is Stage || asked(s, p, events, j) is CopyOriginal) by {
                if j < last {
                    assert(asked(s, p, events, j) == asked(s, p, front, j));
                }
            }
            assert(flushed_at(s, p, events, i));
        }
    }
}

/// The lock of a temporary file that is not published yet.
pub open spec fn pending_lock(stage: Stage) -> Option<u64> {
    match stage {
        Stage::Archive(_, ArchiveStep::Identify(lock)) => Some(lock),
        Stage::Archive(_, ArchiveStep::Persist(lock)) => Some(lock),
        Stage::Publish(_, PublishStep::Identify(lock)) => Some(lock),
        Stage::Publish(_, PublishStep::Previous(lock)) => Some(lock),
        Stage::Publish(_, PublishStep::Persist(lock)) => Some(lock),
        _ => None,
    }
}

/// The owned files are different files, and no copy is one of them.
pub open spec fn locks_distinct(s: SwapView) -> bool {
    &&& forall|i: int, j: int|
        0 <= i < j < s.files.len() ==> (#[trigger] s.files[i]).lock != (#[trigger] s.files[j]).lock
    &&& forall|i: int, j: int|
        0 <= i < s.recovered.len() && 0 <= j < s.files.len() ==> !locked_by(
            (#[trigger] s.recovered[i]).archive,
            (#[trigger] s.files[j]).lock,
        )
}

/// The same, together with the lock of a temporary file: it is that of no owned file.
pub open spec fn progress_locks(s: SwapView, p: ProgressView) -> bool {
    &&& locks_distinct(s)
    &&& p matches ProgressView::Continue(w) ==> (pending_lock(w.stage) matches Some(lock)
        ==> !holds_lock(s, lock))
}

/// A lock that is newly taken is none that is already held.
pub open spec fn fresh(s: SwapView, event: EventView) -> bool {
    event matches EventView::Locked(r) ==> (r matches Ok(lock) ==> !holds_lock(s, lock))
}

proof fn lemma_fewer_files(s: SwapView, i: int)
    requires
        locks_distinct(s),
        0 <= i < s.files.len(),
    ensures
        locks_distinct(SwapView { files: s.files.remove(i), ..s }),
{
    let kept = s.files.remove(i);
    assert forall|j: int| 0 <= j < kept.len() implies #[trigger] kept[j] == s.files[if j < i {
        j
    } else {
        j + 1
    }] by {}
}

/// Fewer recovered files need no other locks.
proof fn lemma_retire_locks(s: SwapView)
    requires
        locks_distinct(s),
    ensures
        progress_locks(enter_retire(s).0, enter_retire(s).1),
{
    lemma_without_uncopied(s.recovered);
    let kept = without_uncopied(s.recovered);
    assert forall|i: int| 0 <= i < kept.len() implies #[trigger] kept[i] == s.recovered[i] by {}
}

proof fn lemma_remove_locks(s: SwapView, plan: PlanView, end: int, troubles: Seq<TroubleView>)
    requires
        locks_distinct(s),
    ensures
        progress_locks(
            enter_remove(s, plan, end, troubles).0,
            enter_remove(s, plan, end, troubles).1,
        ),
{
    if end <= 0 && troubles.len() == 0 && plan is Close {
        lemma_retire_locks(s);
    }
}

proof fn lemma_archive_locks(s: SwapView, plan: PlanView, i: int)
    requires
        locks_distinct(s),
    ensures
        progress_locks(enter_archive(s, plan, i).0, enter_archive(s, plan, i).1),
{
    if i >= s.recovered.len() && plan is Close {
        lemma_remove_locks(s, plan, s.files.len() as int, Seq::empty());
    }
}

/// Law: the owned files and the copies stay different files at every step, as long as every newly
/// taken lock is a new one.
pub proof fn law_locks_stay_distinct(s: SwapView, w: WorkView, event: EventView)
    requires
        work_ok(s, w),
        admitted(action_of(s, w), event),
        progress_locks(s, ProgressView::Continue(w)),
        fresh(s, event),
    ensures
        progress_locks(step_of(s, w, event).0, step_of(s, w, event).1),
{
    let next = step_of(s, w, event).0;
    match w.stage {
        Stage::Archive(i, step) => {
            let i = i as int;
            match step {
                ArchiveStep::Verify => {
                    lemma_archive_locks(s, w.plan, i + 1);
                },
                ArchiveStep::Persist(lock) => {
                    assert forall|j: int| 0 <= j < s.files.len() implies (
                    #[trigger] s.files[j]).lock != lock by {}
                },
                ArchiveStep::Sync => {
                    let source = s.recovered[i];
                    let kept = SwapView {
                        recovered: s.recovered.update(i, SourceView { original: None, ..source }),
                        ..s
                    };
                    assert(locks_distinct(kept));
                    lemma_archive_locks(kept, w.plan, i + 1);
                },
                _ => {},
            }
        },
        Stage::Publish(k, step) => {
            match step {
                PublishStep::Persist(lock) => {
                    if next.files != s.files {
                        assert forall|j: int| 0 <= j < s.files.len() implies (
                        #[trigger] s.files[j]).lock != lock by {}
                        assert forall|j: int|
                            0 <= j < s.recovered.len() implies !locked_by(
                            (#[trigger] s.recovered[j]).archive,
                            lock,
                        ) by {
                            assert(!source_holds(s.recovered[j], lock));
                        }
                        assert forall|j: int| 0 <= j < next.files.len() - 1 implies (
                        #[trigger] next.files[j]) == s.files[j] by {}
                    }
                },
                _ => {},
            }
        },
        Stage::Settle => {
            lemma_remove_locks(s, w.plan, s.files.len() - 1, Seq::empty());
        },
        Stage::Remove(i, step) => {
            let i = i as int;
            match event_fault(event) {
                Some(fault) => {
                    lemma_remove_locks(
                        s,
                        w.plan,
                        i - 1,
                        w.troubles.push(TroubleView { path: s.files[i - 1].path, fault }),
                    );
                },
                None => {
                    if step is Sync {
                        lemma_fewer_files(s, i - 1);
                        let kept = SwapView { files: s.files.remove(i - 1), ..s };
                        lemma_remove_locks(kept, w.plan, i - 1, w.troubles);
                    }
                },
            }
        },
        Stage::Retire(step) => {
            if event_fault(event) is None && step is Sync {
                let kept = SwapView { recovered: s.recovered.drop_last(), ..s };
                assert forall|i: int| 0 <= i < kept.recovered.len() implies (
                #[trigger] kept.recovered[i]) == s.recovered[i] by {}
                lemma_retire_locks(kept);
            }
        },
    }
}

/// Law: what a write, or a close that retains, removes or replaces is no copy of a recovered
/// original, and what a write removes is not the snapshot that it published. This speaks of the
/// files themselves, told apart by their locks, whatever their paths are.
pub proof fn law_consumed_files_are_others(s: SwapView, w: WorkView, i: int)
    requires
        work_ok(s, w),
        locks_distinct(s),
        0 <= i < s.files.len(),
    ensures
        forall|j: int|
            0 <= j < s.recovered.len() ==> !locked_by(
                (#[trigger] s.recovered[j]).archive,
                s.files[i].lock,
            ),
        w.stage matches Stage::Remove(end, _) ==> (w.plan is Write && i == end - 1
            ==> s.files[i].lock != s.files.last().lock),
{
}

/// Questions that a write or a close can still ask.
pub open spec fn work_left(s: SwapView, w: WorkView) -> int {
    let sources = s.recovered.len() as int;
    let files = s.files.len() as int;
    let directories = match w.plan {
        PlanView::Write(plan) => if plan.migrate {
            plan.directories.len() as int
        } else {
            1
        },
        PlanView::Close => 0,
    };
    match w.stage {
        Stage::Archive(i, step) => {
            let behind = match w.plan {
                PlanView::Write(_) => 10 * directories + 10 * (files + 1) + 20,
                PlanView::Close => 10 * files + 10 * sources + 20,
            };
            10 * (sources - i) - archive_rank(step) + behind
        },
        Stage::Publish(k, step) => 10 * (directories - k) - publish_rank(step) + 10 * (files + 1)
            + 10,
        Stage::Settle => 10 * files + 5,
        Stage::Remove(i, step) => 10 * i - remove_rank(step) + (if w.plan is Close {
            10 * sources + 10
        } else {
            0
        }),
        Stage::Retire(step) => 10 * sources - remove_rank(step),
    }
}

pub open spec fn archive_rank(step: ArchiveStep) -> int {
    match step {
        ArchiveStep::Verify => 0,
        ArchiveStep::Examine => 0,
        ArchiveStep::Copy => 1,
        ArchiveStep::Flush => 2,
        ArchiveStep::Recheck => 3,
        ArchiveStep::Lock => 4,
        ArchiveStep::Identify(_) => 5,
        ArchiveStep::Persist(_) => 6,
        ArchiveStep::Confirm => 7,
        ArchiveStep::Sync => 8,
    }
}

pub open spec fn publish_rank(step: PublishStep) -> int {
    match step {
        PublishStep::Current => 0,
        PublishStep::Stage => 1,
        PublishStep::Flush => 2,
        PublishStep::Lock => 3,
        PublishStep::Identify(_) => 4,
        PublishStep::Previous(_) => 5,
        PublishStep::Persist(_) => 6,
    }
}

pub open spec fn remove_rank(step: RemoveStep) -> int {
    match step {
        RemoveStep::Inspect => 0,
        RemoveStep::Check => 1,
        RemoveStep::Unlink => 2,
        RemoveStep::Sync => 3,
    }
}

proof fn lemma_less_left_copying(s: SwapView, w: WorkView, event: EventView)
    requires
        work_ok(s, w),
        w.stage is Archive,
        admitted(action_of(s, w), event),
        progress_ok(step_of(s, w, event).0, step_of(s, w, event).1),
    ensures
        step_of(s, w, event).1 matches ProgressView::Continue(next) ==> work_left(
            step_of(s, w, event).0,
            next,
        ) < work_left(s, w),
{
}

proof fn lemma_less_left_publishing(s: SwapView, w: WorkView, event: EventView)
    requires
        work_ok(s, w),
        w.stage is Publish || w.stage is Settle,
        admitted(action_of(s, w), event),
        progress_ok(step_of(s, w, event).0, step_of(s, w, event).1),
    ensures
        step_of(s, w, event).1 matches ProgressView::Continue(next) ==> work_left(
            step_of(s, w, event).0,
            next,
        ) < work_left(s, w),
{
}

proof fn lemma_less_left_removing(s: SwapView, w: WorkView, event: EventView)
    requires
        work_ok(s, w),
        w.stage is Remove || w.stage is Retire,
        admitted(action_of(s, w), event),
        progress_ok(step_of(s, w, event).0, step_of(s, w, event).1),
    ensures
        step_of(s, w, event).1 matches ProgressView::Continue(next) ==> work_left(
            step_of(s, w, event).0,
            next,
        ) < work_left(s, w),
{
    lemma_without_uncopied(s.recovered);
    if s.recovered.len() > 0 {
        lemma_without_uncopied(s.recovered.drop_last());
    }
}

proof fn lemma_less_left(s: SwapView, w: WorkView, event: EventView)
    requires
        work_ok(s, w),
        admitted(action_of(s, w), event),
        fits(step_of(s, w, event).0),
    ensures
        work_left(s, w) >= 0,
        step_of(s, w, event).1 matches ProgressView::Continue(next) ==> 0 <= work_left(
            step_of(s, w, event).0,
            next,
        ) < work_left(s, w),
{
    lemma_step_ok(s, w, event);
    lemma_left_is_counted(s, w);
    let next = step_of(s, w, event);
    if next.1 is Continue {
        lemma_left_is_counted(next.0, next.1->Continue_0);
    }
    match w.stage {
        Stage::Archive(_, _) => {
            lemma_less_left_copying(s, w, event);
        },
        Stage::Publish(_, _) | Stage::Settle => {
            lemma_less_left_publishing(s, w, event);
        },
        Stage::Remove(_, _) | Stage::Retire(_) => {
            lemma_less_left_removing(s, w, event);
        },
    }
}

/// Law: every write and every close ends, whatever the file system answers. The number of
/// questions that it asks is bounded by what it starts from.
pub proof fn law_work_ends(s: SwapView, w: WorkView, events: Seq<EventView>)
    requires
        work_ok(s, w),
        possible(s, ProgressView::Continue(w), events),
    ensures
        events.len() <= work_left(s, w) + 1,
        run(s, ProgressView::Continue(w), events).1 matches ProgressView::Continue(now)
            ==> events.len() + work_left(run(s, ProgressView::Continue(w), events).0, now)
            <= work_left(s, w),
        work_left(s, w) >= 0,
    decreases events.len(),
{
    let p = ProgressView::Continue(w);
    if events.len() > 0 {
        let front = events.drop_last();
        law_work_ends(s, w, front);
        lemma_run_ok(s, p, front);
        let before = run(s, p, front);
        lemma_less_left(before.0, before.1->Continue_0, events.last());
    } else {
        lemma_left_is_counted(s, w);
    }
}

proof fn lemma_left_is_counted(s: SwapView, w: WorkView)
    requires
        work_ok(s, w),
    ensures
        work_left(s, w) >= 0,
{
}

/// Law: a directory is created only for a write, and only where it is the state directory's own
/// recovery directory.
pub proof fn law_only_the_state_directory_is_created(s: SwapView, w: WorkView)
    requires
        work_ok(s, w),
    ensures
        action_of(s, w) matches ActionView::Stage { directory, create, .. } ==> {
            &&& w.plan matches PlanView::Write(plan)
            &&& create is Some <==> same_path(directory, plan.state_directory)
        },
{
}

/// Law: a published file lies in the directory that it was staged in, under the name that it was
/// staged with behind the prefix of active files.
pub proof fn law_published_file_lies_in_its_directory(directory: Seq<u8>, name: Seq<u8>)
    requires
        is_absolute(directory),
        temporary_file(name),
    ensures
        parent_of(joined(directory, published_name_of(name))) matches Some(parent) && same_path(
            parent,
            directory,
        ),
        file_name_of(joined(directory, published_name_of(name))) == Some(published_name_of(name)),
{
    let file = published_name_of(name);
    lemma_renamed(name, encode_utf8(PREFIX@));
    lemma_joined_name(directory, file);
    law_join_components(directory, file);
    law_parent_drops_last_component(joined(directory, file));
    lemma_no_separator(file);
    assert(pieces(file).len() == 1);
    assert(components(joined(directory, file)).drop_last() =~= components(directory));
}

/// Law: what is staged for a valid snapshot reads back as that snapshot, where the header bytes
/// are those of its header.
pub proof fn law_staged_contents_read_back(s: SwapView, w: WorkView, facts: RecoveryMetadata)
    requires
        work_ok(s, w),
        action_of(s, w) is Stage,
        snapshot_fault(w.plan->Write_0.snapshot) is None,
        w.plan->Write_0.header.len() > 0,
        action_of(s, w)->Stage_contents.len() <= u64::MAX,
    ensures
        ({
            let plan = w.plan->Write_0;
            let file = action_of(s, w)->Stage_contents;
            let length = plan.header.len() as int;
            &&& header_length_of(file) == Ok::<usize, HeaderError>(plan.header.len() as usize)
            &&& header_bytes(file, length) == plan.header
            &&& read_fault(
                header_of(plan.snapshot, facts),
                plan.header.len(),
                file.len() as u64,
                behind_header(file, length),
            ) is None
            &&& described(
                header_of(plan.snapshot, facts),
                decode_utf8(behind_header(file, length)),
            ) == plan.snapshot
        }),
{
    let plan = w.plan->Write_0;
    law_written_file_reads_back(plan.snapshot, facts, plan.header);
}

/// Law: a backup is never written over. Where the newest owned file is a backup, a write creates
/// another file; a copy is always named as a backup, and a published snapshot never is.
pub proof fn law_backups_are_not_written_over(
    s: SwapView,
    snapshot: SnapshotView,
    header: Seq<u8>,
    config: ConfigView,
    expanded: Seq<Seq<u8>>,
    state_directory: Seq<u8>,
    directory: Seq<u8>,
    name: Seq<u8>,
)
    requires
        temporary_file(name),
        valid_utf8(archive_name_of(name)),
    ensures
        s.files.len() > 0 && is_archive(s.files.last().path) ==> plan_of(
            s,
            snapshot,
            header,
            config,
            expanded,
            state_directory,
        ).migrate,
        is_archive(joined(directory, archive_name_of(name))),
        !is_archive(joined(directory, published_name_of(name))),
{
    let file = archive_name_of(name);
    let prefix = encode_utf8(ARCHIVE_PREFIX@);
    lemma_renamed(name, prefix);
    lemma_joined_name(directory, file);
    assert(file.take(prefix.len() as int) =~= prefix);
    lemma_published_is_no_archive(directory, name);
}

/// Every answer is a good one: what is checked is the file that is owned, a copy is complete, and
/// no call fails.
pub open spec fn all_good(events: Seq<EventView>) -> bool {
    forall|i: int| 0 <= i < events.len() ==> event_fault(#[trigger] events[i]) is None
}

/// Nothing went wrong so far.
pub open spec fn untroubled(p: ProgressView) -> bool {
    match p {
        ProgressView::Continue(w) => w.troubles.len() == 0,
        ProgressView::Written(_) => true,
        ProgressView::Closed(_) => true,
        ProgressView::Failed(_) => false,
    }
}

proof fn lemma_good_step(s: SwapView, w: WorkView, event: EventView)
    requires
        work_ok(s, w),
        w.plan matches PlanView::Write(plan) ==> (plan.migrate ==> plan.directories.len() > 0),
        admitted(action_of(s, w), event),
        event_fault(event) is None,
        w.troubles.len() == 0,
    ensures
        untroubled(step_of(s, w, event).1),
        step_of(s, w, event).1 matches ProgressView::Continue(next) ==> next.plan == w.plan,
        step_of(s, w, event).1 is Written ==> w.plan is Write,
        step_of(s, w, event).1 is Closed ==> w.plan is Close,
{
    match w.stage {
        Stage::Archive(i, step) => {
            match step {
                ArchiveStep::Identify(_) => {
                    assert(identity_fault(event->Checked_0) is None);
                },
                _ => {},
            }
        },
        Stage::Publish(k, step) => {
            match step {
                PublishStep::Identify(_) => {
                    assert(identity_fault(event->Checked_0) is None);
                },
                _ => {},
            }
        },
        _ => {},
    }
}

proof fn lemma_good_run(s: SwapView, p: ProgressView, plan: PlanView, events: Seq<EventView>)
    requires
        progress_ok(s, p),
        plan matches PlanView::Write(write) ==> (write.migrate ==> write.directories.len() > 0),
        p matches ProgressView::Continue(w) ==> w.plan == plan,
        p is Written ==> plan is Write,
        p is Closed ==> plan is Close,
        untroubled(p),
        possible(s, p, events),
        all_good(events),
    ensures
        ({
            let ended = run(s, p, events).1;
            &&& untroubled(ended)
            &&& ended matches ProgressView::Continue(w) ==> w.plan == plan
            &&& ended is Written ==> plan is Write
            &&& ended is Closed ==> plan is Close
        }),
    decreases events.len(),
{
    if events.len() > 0 {
        let front = events.drop_last();
        assert forall|i: int| 0 <= i < front.len() implies event_fault(
            #[trigger] front[i],
        ) is None by {
            assert(front[i] == events[i]);
        }
        lemma_good_run(s, p, plan, front);
        lemma_run_ok(s, p, front);
        let before = run(s, p, front);
        lemma_good_step(before.0, before.1->Continue_0, events.last());
    }
}

/// Law: success is owed. A write whose answers are all good never fails: it goes on until it has
/// succeeded, where there is a file to replace or a directory to write to.
pub proof fn law_write_succeeds_when_nothing_fails(
    start: SwapView,
    plan: WritePlanView,
    events: Seq<EventView>,
)
    requires
        write_started(start, plan),
        plan.migrate ==> plan.directories.len() > 0,
        ({
            let begun = enter_archive(start, PlanView::Write(plan), 0);
            possible(begun.0, begun.1, events)
        }),
        all_good(events),
    ensures
        ({
            let begun = enter_archive(start, PlanView::Write(plan), 0);
            let ended = run(begun.0, begun.1, events).1;
            ended is Continue || ended is Written
        }),
{
    let begun = enter_archive(start, PlanView::Write(plan), 0);
    lemma_archive_ok(start, PlanView::Write(plan), 0);
    lemma_good_run(begun.0, begun.1, PlanView::Write(plan), events);
}

/// Law: a close whose answers are all good never fails: it goes on until everything is released.
pub proof fn law_close_succeeds_when_nothing_fails(
    s: SwapView,
    retain: bool,
    events: Seq<EventView>,
)
    requires
        swap_ok(s),
        ({
            let begun = closing(s, retain);
            possible(begun.0, begun.1, events)
        }),
        all_good(events),
    ensures
        ({
            let begun = closing(s, retain);
            let ended = run(begun.0, begun.1, events).1;
            ended is Continue || ended is Closed
        }),
{
    let begun = closing(s, retain);
    let start = shut(s, retain);
    if start.retain_recovered {
        lemma_archive_ok(start, PlanView::Close, 0);
    } else {
        lemma_remove_ok(start, PlanView::Close, start.files.len() as int, Seq::empty());
    }
    lemma_good_run(begun.0, begun.1, PlanView::Close, events);
}

/// What copying does to a recovered file: a copy that was made stays as it is, the original is
/// kept or let go of, and a new copy lies beside the original, under the name of a backup.
pub open spec fn copy_kept(before: SourceView, after: SourceView) -> bool {
    &&& after.original is None || after.original == before.original
    &&& before.archive is Some ==> after.archive == before.archive
    &&& before.archive is None && after.archive is Some ==> before.original is Some && exists|
        name: Seq<u8>,
    |
        temporary_file(name) && after.archive->0.path == #[trigger] joined(
            directory_of_file(before.original->0),
            archive_name_of(name),
        )
}

pub open spec fn copies_kept(before: Seq<SourceView>, after: Seq<SourceView>) -> bool {
    &&& before.len() == after.len()
    &&& forall|i: int| 0 <= i < before.len() ==> #[trigger] copy_kept(before[i], after[i])
}

pub proof fn lemma_copies_kept_on(a: Seq<SourceView>, b: Seq<SourceView>, c: Seq<SourceView>)
    requires
        copies_kept(a, b),
        copies_kept(b, c),
    ensures
        copies_kept(a, c),
{
    assert forall|i: int| 0 <= i < a.len() implies #[trigger] copy_kept(a[i], c[i]) by {
        assert(copy_kept(a[i], b[i]));
        assert(copy_kept(b[i], c[i]));
    }
}

/// The recovered files as a step leaves them, before a close lets go of them.
pub open spec fn sources_after(s: SwapView, w: WorkView, event: EventView) -> Seq<SourceView> {
    match w.stage {
        Stage::Archive(i, ArchiveStep::Persist(lock)) if succeeded(event) => {
            let source = s.recovered[i as int];
            let archive = OwnedView { path: archive_destination(source, w.name), lock };
            s.recovered.update(i as int, SourceView { archive: Some(archive), ..source })
        },
        Stage::Archive(i, ArchiveStep::Sync) if succeeded(event) => s.recovered.update(
            i as int,
            SourceView { original: None, ..s.recovered[i as int] },
        ),
        _ => s.recovered,
    }
}

/// A write, or a close that retains, keeps the copies; only a close that has ended lets go of them,
/// and then reports their paths.
pub proof fn lemma_copies_step(s: SwapView, w: WorkView, event: EventView)
    requires
        work_ok(s, w),
        admitted(action_of(s, w), event),
        w.plan is Write || s.retain_recovered,
    ensures
        ({
            let next = step_of(s, w, event);
            let kept = sources_after(s, w, event);
            &&& copies_kept(s.recovered, kept)
            &&& !(next.1 is Closed) ==> next.0.recovered == kept
            &&& !(next.1 is Closed) ==> next.0.retained_archives == s.retained_archives
            &&& next.1 matches ProgressView::Closed(paths) ==> {
                &&& paths == s.retained_archives + released_paths(kept)
                &&& forall|i: int|
                    0 <= i < kept.len() ==> (#[trigger] kept[i]).original is None
                        && kept[i].archive is Some
            }
        }),
{
    let kept = sources_after(s, w, event);
    match w.stage {
        Stage::Archive(i, step) => {
            let i = i as int;
            assert(source_ok(s.recovered[i]));
            if step is Persist && succeeded(event) {
                assert(kept[i].archive->0.path == joined(
                    directory_of_file(s.recovered[i].original->0),
                    archive_name_of(w.name),
                ));
            }
            assert forall|j: int| 0 <= j < s.recovered.len() implies #[trigger] copy_kept(
                s.recovered[j],
                kept[j],
            ) by {
                if j == i && step is Persist && succeeded(event) {
                    assert(temporary_file(w.name));
                }
            }
            assert forall|j: int|
                i < j < s.recovered.len() || 0 <= j < i implies #[trigger] kept[j]
                == s.recovered[j] by {}
            assert forall|j: int| 0 <= j < s.recovered.len() implies source_ok(
                #[trigger] s.recovered[j],
            ) by {}
        },
        _ => {},
    }
}

proof fn lemma_write_keeps_copies(start: SwapView, plan: WritePlanView, events: Seq<EventView>)
    requires
        write_started(start, plan),
        ({
            let begun = enter_archive(start, PlanView::Write(plan), 0);
            possible(begun.0, begun.1, events)
        }),
    ensures
        ({
            let begun = enter_archive(start, PlanView::Write(plan), 0);
            let ended = run(begun.0, begun.1, events);
            copies_kept(start.recovered, ended.0.recovered)
        }),
    decreases events.len(),
{
    let begun = enter_archive(start, PlanView::Write(plan), 0);
    lemma_archive_ok(start, PlanView::Write(plan), 0);
    if events.len() > 0 {
        let front = events.drop_last();
        lemma_write_keeps_copies(start, plan, front);
        law_write_outcome(start, plan, front);
        law_write_outcome(start, plan, events);
        lemma_run_ok(begun.0, begun.1, front);
        let before = run(begun.0, begun.1, front);
        let w = before.1->Continue_0;
        lemma_copies_step(before.0, w, events.last());
        let ended = run(begun.0, begun.1, events);
        lemma_copies_kept_on(start.recovered, before.0.recovered, ended.0.recovered);
    }
}

/// Law: a recovered file has one copy. A write makes it where there is none, beside the original
/// and named as a backup; this and every later write leave a copy that was made at its path. After
/// a write that succeeded every recovered file has its copy.
pub proof fn law_copies_stay_where_they_are(
    start: SwapView,
    plan: WritePlanView,
    events: Seq<EventView>,
)
    requires
        write_started(start, plan),
        ({
            let begun = enter_archive(start, PlanView::Write(plan), 0);
            possible(begun.0, begun.1, events)
        }),
    ensures
        ({
            let begun = enter_archive(start, PlanView::Write(plan), 0);
            let ended = run(begun.0, begun.1, events);
            &&& copies_kept(start.recovered, ended.0.recovered)
            &&& ended.1 is Written ==> all_archived(ended.0)
            &&& all_archived(start) ==> ended.0.recovered == start.recovered
        }),
{
    let begun = enter_archive(start, PlanView::Write(plan), 0);
    let ended = run(begun.0, begun.1, events);
    lemma_write_keeps_copies(start, plan, events);
    law_write_outcome(start, plan, events);
    if all_archived(start) {
        assert forall|i: int| 0 <= i < start.recovered.len() implies (
        #[trigger] ended.0.recovered[i]) == start.recovered[i] by {
            assert(copy_kept(start.recovered[i], ended.0.recovered[i]));
        }
        assert(ended.0.recovered =~= start.recovered);
    }
}

/// Law: only an original that has no copy yet is copied, and into its own directory.
pub proof fn law_only_uncopied_originals_are_copied(s: SwapView, w: WorkView)
    requires
        work_ok(s, w),
    ensures
        action_of(s, w) matches ActionView::CopyOriginal { directory, lock, .. } ==> exists|i: int|
            {
                &&& 0 <= i < s.recovered.len()
                &&& (#[trigger] s.recovered[i]).archive is None
                &&& s.recovered[i].original matches Some(original)
                &&& original.lock == lock
                &&& directory_of_file(original) == directory
            },
{
    if action_of(s, w) is CopyOriginal {
        if let Stage::Archive(i, step) = w.stage {
            assert(s.recovered[i as int].archive is None);
        }
    }
}

/// The file system keeps to what a publication asks for: where nothing may be replaced, success
/// means that the destination was the path of no owned file.
pub open spec fn refuses_existing(s: SwapView, w: WorkView, event: EventView) -> bool {
    action_of(s, w) matches ActionView::Persist { destination, replace } ==> (!replace && succeeded(
        event,
    ) ==> forall|i: int| 0 <= i < s.files.len() ==> (#[trigger] s.files[i]).path != destination)
}

pub open spec fn always_refuses(s: SwapView, p: ProgressView, events: Seq<EventView>) -> bool
    decreases events.len(),
{
    events.len() > 0 ==> {
        let before = run(s, p, events.drop_last());
        &&& always_refuses(s, p, events.drop_last())
        &&& refuses_existing(before.0, before.1->Continue_0, events.last())
    }
}

/// The published snapshot of a write that moved is not at the path of the file before it.
pub open spec fn moved_away(
    start: SwapView,
    plan: WritePlanView,
    s: SwapView,
    p: ProgressView,
) -> bool {
    let there = match p {
        ProgressView::Continue(w) => w.stage is Settle || w.stage is Remove,
        ProgressView::Written(_) => true,
        _ => false,
    };
    there && plan.migrate ==> s.files.len() > 0 && s.files.last().path != start.files.last().path
}

proof fn lemma_moved_step(
    start: SwapView,
    plan: WritePlanView,
    s: SwapView,
    w: WorkView,
    event: EventView,
)
    requires
        write_started(start, plan),
        start.files.len() > 0,
        work_ok(s, w),
        write_course(start, plan, s, ProgressView::Continue(w)),
        moved_away(start, plan, s, ProgressView::Continue(w)),
        admitted(action_of(s, w), event),
        refuses_existing(s, w, event),
    ensures
        moved_away(start, plan, step_of(s, w, event).0, step_of(s, w, event).1),
{
    let next = step_of(s, w, event).0;
    match w.stage {
        Stage::Publish(k, step) => {
            if step is Persist && plan.migrate && succeeded(event) {
                assert(s.files[s.files.len() - 1].path != target_path(s, plan, k as int, w.name));
            }
        },
        Stage::Remove(i, step) => {
            if next.files != s.files {
                assert(next.files == s.files.remove(i - 1));
                assert(next.files.last() == s.files.last());
            }
        },
        _ => {},
    }
}

/// Law: a write that succeeds keeps the path of the current file if nothing relevant changed, and
/// only then: not the original, nor the working directory of an unnamed buffer, nor the
/// directories, nor the suffix, and the current file is no backup. A write that moves lies at
/// another path, where the file system refuses to replace what a new name finds there.
pub proof fn law_path_changes_exactly_when_something_changed(
    start: SwapView,
    plan: WritePlanView,
    events: Seq<EventView>,
)
    requires
        write_started(start, plan),
        start.files.len() > 0,
        plan.migrate == migrates(start, plan.snapshot, plan.directories, plan.suffix),
        ({
            let begun = enter_archive(start, PlanView::Write(plan), 0);
            possible(begun.0, begun.1, events) && always_refuses(begun.0, begun.1, events)
        }),
    ensures
        ({
            let begun = enter_archive(start, PlanView::Write(plan), 0);
            let ended = run(begun.0, begun.1, events);
            &&& moved_away(start, plan, ended.0, ended.1)
            &&& ended.1 matches ProgressView::Written(path) ==> {
                &&& current_path(ended.0) == Some(path)
                &&& current_path(start) == Some(path) <==> !migrates(
                    start,
                    plan.snapshot,
                    plan.directories,
                    plan.suffix,
                )
            }
        }),
    decreases events.len(),
{
    let begun = enter_archive(start, PlanView::Write(plan), 0);
    lemma_archive_ok(start, PlanView::Write(plan), 0);
    law_write_outcome(start, plan, events);
    if events.len() > 0 {
        let front = events.drop_last();
        law_path_changes_exactly_when_something_changed(start, plan, front);
        law_write_outcome(start, plan, front);
        lemma_run_ok(begun.0, begun.1, front);
        let before = run(begun.0, begun.1, front);
        lemma_moved_step(start, plan, before.0, before.1->Continue_0, events.last());
    }
}

} // verus!
