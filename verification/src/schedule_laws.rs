//! What the recording and the polling of changes keep.

use vstd::prelude::*;
use vstd::utf8::encode_utf8;

use crate::claim::{recovery_of, Opened, RecoveryView};
use crate::config::ConfigView;
use crate::model::SwapView;
use crate::names::is_archive;
use crate::paths::{
    components, is_absolute, law_parent_drops_last_component, lemma_parent_is_prefix, parent_of,
};
use crate::snapshot::{over_threshold, text_size, SnapshotView};
use crate::state::{
    disabled, due_time, first_change, initial_cwd_of, initial_state, marked_written, polled,
    preserved, preserving, reconfigured, recorded, refreshed, retention, saturated, shut_down,
    started, state_ok, turned, with_recovery, with_saved_text, worker_ended, NoticeView,
    OutcomeView, StateView, StepView,
};
use crate::swap::{adopted, current_path, plan_of};

verus! {

/// A change that is scheduled: recovery is enabled and open, the text is within the limit, the
/// deadline can be represented, and a failure is not waiting for a change.
pub open spec fn schedules(
    v: StateView,
    snapshot: SnapshotView,
    config: ConfigView,
    changed: usize,
    reachable: bool,
) -> bool {
    &&& config.enable
    &&& !v.closed
    &&& !v.failed || changed > 0
    &&& !over_threshold(text_size(snapshot), config.size_threshold)
    &&& reachable
}

/// Law: the newest snapshot is the pending one, and only while one can be scheduled.
pub proof fn law_latest_snapshot_is_pending(
    v: StateView,
    snapshot: SnapshotView,
    config: ConfigView,
    changed: usize,
    now: u64,
    reachable: bool,
)
    requires
        state_ok(v),
    ensures
        schedules(v, snapshot, config, changed, reachable) ==> recorded(
            v,
            snapshot,
            config,
            changed,
            now,
            reachable,
        ).pending == Some((snapshot, config)),
        state_ok(recorded(v, snapshot, config, changed, now, reachable)),
{
}

/// Law: the first snapshot is due at once, and so is one when enough characters have changed.
pub proof fn law_first_change_and_full_count_are_due_at_once(
    v: StateView,
    snapshot: SnapshotView,
    config: ConfigView,
    changed: usize,
    now: u64,
    reachable: bool,
)
    requires
        state_ok(v),
        schedules(v, snapshot, config, changed, reachable),
        !v.attempted || saturated(v.changed_chars, changed) >= config.update_count,
    ensures
        recorded(v, snapshot, config, changed, now, reachable).deadline matches Some(deadline)
            && deadline <= now,
{
}

/// Law: a change never stays pending for longer than the update interval, counted from the first
/// pending change. Further changes neither move that first change nor put the deadline off.
pub proof fn law_deadline_is_bounded_by_the_first_change(
    v: StateView,
    snapshot: SnapshotView,
    config: ConfigView,
    changed: usize,
    now: u64,
    reachable: bool,
)
    requires
        state_ok(v),
        schedules(v, snapshot, config, changed, reachable),
    ensures
        ({
            let next = recorded(v, snapshot, config, changed, now, reachable);
            &&& next.first_pending == Some(first_change(v, now))
            &&& v.first_pending is Some ==> next.first_pending == v.first_pending
            &&& next.deadline matches Some(deadline) && deadline <= due_time(
                first_change(v, now),
                config,
            )
            &&& v.deadline is Some ==> next.deadline->0 <= v.deadline->0
        }),
{
}

/// Law: a text over the size limit is never pending. The published file stays, and this is told
/// once until a text is within the limit again.
pub proof fn law_oversized_text_is_held_back(
    v: StateView,
    snapshot: SnapshotView,
    config: ConfigView,
    changed: usize,
    now: u64,
    reachable: bool,
)
    requires
        state_ok(v),
        config.enable,
        !v.closed,
        !v.failed || changed > 0,
        over_threshold(text_size(snapshot), config.size_threshold),
    ensures
        ({
            let next = recorded(v, snapshot, config, changed, now, reachable);
            &&& next.pending is None
            &&& next.deadline is None
            &&& next.published_path == v.published_path
            &&& next.oversized
            &&& !v.oversized ==> next.notice == Some(NoticeView::Oversized(config.size_threshold))
            &&& v.oversized ==> next.notice == v.notice
        }),
{
}

/// Law: after a failure only a change of the text, an explicit write or a new configuration
/// schedules another write; a refresh of the metadata does not.
pub proof fn law_failure_waits_for_a_change(
    v: StateView,
    path: Option<Seq<u8>>,
    encoding: Seq<char>,
    has_bom: bool,
    line_ending: Seq<char>,
    config: ConfigView,
    now: u64,
    reachable: bool,
)
    requires
        state_ok(v),
        v.failed,
        v.pending is None,
    ensures
        refreshed(
            v,
            path,
            encoding,
            has_bom,
            line_ending,
            config,
            now,
            reachable,
        ).pending is None,
{
}

/// Law: where recovery is disabled nothing is retained, scheduled or told, and the outcome of a
/// write in progress is passed over.
pub proof fn law_disabled_keeps_nothing(
    v: StateView,
    snapshot: SnapshotView,
    config: ConfigView,
    changed: usize,
    now: u64,
    reachable: bool,
    outcome: OutcomeView,
)
    requires
        state_ok(v),
        !config.enable,
    ensures
        ({
            let next = recorded(v, snapshot, config, changed, now, reachable);
            &&& next.cached is None
            &&& next.pending is None
            &&& next.deadline is None
            &&& next.sleep is None
            &&& next.notice is None
            &&& next.published_path == v.published_path
            &&& worker_ended(next, outcome, now) == turned(
                StateView { worker: false, ..next },
                now,
            )
        }),
{
}

/// Law: every write has the next generation, and at most one is in progress. A poll starts one
/// only when none is left, the deadline is reached and the state is not closed; what it starts is
/// the pending snapshot.
pub proof fn law_generations_increase(v: StateView, snapshot: SnapshotView, now: u64)
    requires
        state_ok(v),
        v.generation < u64::MAX,
    ensures
        preserving(v, snapshot).generation == v.generation + 1,
        polled(v, now).1 matches StepView::StartWorker(started, config, generation) ==> {
            &&& generation == v.generation + 1
            &&& generation == polled(v, now).0.generation
            &&& generation == polled(v, now).0.worker_generation
            &&& !v.worker && polled(v, now).0.worker
            &&& !v.closed
            &&& v.deadline matches Some(deadline) && deadline <= now
            &&& v.pending == Some((started, config))
        },
        !(polled(v, now).1 is StartWorker) ==> polled(v, now).0.generation == v.generation,
{
}

/// Law: whatever happens to a state, a deadline and a pending snapshot come and go together.
pub proof fn law_every_operation_keeps_the_invariant(
    v: StateView,
    recovery: RecoveryView,
    snapshot: SnapshotView,
    config: ConfigView,
    path: Option<Seq<u8>>,
    encoding: Seq<char>,
    has_bom: bool,
    line_ending: Seq<char>,
    text: Seq<char>,
    number: usize,
    now: u64,
    reachable: bool,
    outcome: OutcomeView,
    published: Seq<u8>,
)
    requires
        state_ok(v),
        v.generation < u64::MAX,
    ensures
        state_ok(initial_state(published)),
        state_ok(disabled(v)),
        state_ok(recorded(v, snapshot, config, number, now, reachable)),
        state_ok(
            refreshed(v, path, encoding, has_bom, line_ending, config, now, reachable),
        ),
        state_ok(with_saved_text(v, text)),
        state_ok(reconfigured(v, config, now, reachable)),
        state_ok(with_recovery(v, recovery, snapshot, number)),
        state_ok(marked_written(v, number)),
        !v.closed ==> state_ok(preserving(v, snapshot)),
        state_ok(preserved(v, has_bom, published)),
        state_ok(polled(v, now).0),
        v.worker ==> state_ok(worker_ended(v, outcome, now).0),
        v.sleep is Some ==> state_ok(started(v).0),
        state_ok(shut_down(v)),
{
}

/// Law: an explicit write fences off the write in progress: its outcome changes neither the
/// reported path nor what is told.
pub proof fn law_explicit_write_fences_the_worker(
    v: StateView,
    snapshot: SnapshotView,
    unnamed: bool,
    path: Seq<u8>,
    outcome: OutcomeView,
    now: u64,
)
    requires
        state_ok(v),
        v.worker,
        !v.closed,
        v.generation < u64::MAX,
    ensures
        ({
            let written = preserved(preserving(v, snapshot), unnamed, path);
            let ended = worker_ended(written, outcome, now);
            &&& ended.0.published_path == Some(path)
            &&& ended.1 == StepView::Idle
            &&& !ended.0.worker
        }),
{
}

/// Law: the backup of a recovered file is retained until a revision that is not older than the
/// recovery was saved. No other operation authorizes its removal.
pub proof fn law_backup_is_retained_until_recovered_work_is_saved(
    v: StateView,
    recovery: RecoveryView,
    snapshot: SnapshotView,
    config: ConfigView,
    revision: usize,
    saved: usize,
    changed: usize,
    now: u64,
    reachable: bool,
    outcome: OutcomeView,
    text: Seq<char>,
)
    requires
        state_ok(v),
    ensures
        ({
            let taken = with_recovery(v, recovery, snapshot, revision);
            &&& retention(taken, false)
            &&& retention(marked_written(taken, saved), false) == (saved < revision)
            &&& retention(taken, true) && retention(marked_written(taken, saved), true)
        }),
        recorded(v, snapshot, config, changed, now, reachable).recovered_written
            == v.recovered_written,
        reconfigured(v, config, now, reachable).recovered_written == v.recovered_written,
        with_saved_text(v, text).recovered_written == v.recovered_written,
        preserving(v, snapshot).recovered_written == v.recovered_written,
        polled(v, now).0.recovered_written == v.recovered_written,
        worker_ended(v, outcome, now).0.recovered_written == v.recovered_written,
        shut_down(v).recovered_written == v.recovered_written,
{
}

/// Law: a closed state takes no more changes and has nothing to do.
pub proof fn law_closed_state_is_idle(
    v: StateView,
    snapshot: SnapshotView,
    config: ConfigView,
    changed: usize,
    now: u64,
    reachable: bool,
)
    requires
        state_ok(v),
    ensures
        ({
            let closed = shut_down(v);
            let next = recorded(closed, snapshot, config, changed, now, reachable);
            &&& state_ok(closed)
            &&& closed.pending is None && !closed.worker && closed.notice is None
            &&& next.pending is None && !next.worker && next.closed
            &&& polled(closed, now) == (closed, StepView::Idle)
        }),
{
}

/// Law: where a snapshot was attempted before and fewer characters than the update count have
/// changed, the deadline is the earlier of the former one, if any, and the first pending change
/// plus the update interval. Only the first snapshot and a full count bring it forward, and then
/// no further than to now. The first pending change is that of before, or this one.
pub proof fn law_deadline_moves_for_no_other_reason(
    v: StateView,
    snapshot: SnapshotView,
    config: ConfigView,
    changed: usize,
    now: u64,
    reachable: bool,
)
    requires
        state_ok(v),
        schedules(v, snapshot, config, changed, reachable),
    ensures
        ({
            let next = recorded(v, snapshot, config, changed, now, reachable);
            let first = if v.pending is Some {
                v.first_pending->0 as int
            } else {
                now as int
            };
            let due = first + config.update_time * 1_000_000_000;
            let full = v.changed_chars + changed >= config.update_count;
            &&& next.first_pending is Some && next.first_pending->0 == first
            &&& next.deadline matches Some(deadline)
            &&& deadline <= due
            &&& v.deadline matches Some(former) ==> deadline <= former
            &&& v.attempted && !full ==> deadline == due || v.deadline == Some(deadline)
            &&& !v.attempted || full ==> deadline <= now
            &&& deadline == due || deadline == now || v.deadline == Some(deadline)
        }),
{
}

/// Law: when a snapshot is due depends on the time, the settings and the number of changed
/// characters alone: neither on what the buffer holds nor on whether it is named.
pub proof fn law_schedule_does_not_depend_on_the_buffer(
    v: StateView,
    one: SnapshotView,
    other: SnapshotView,
    config: ConfigView,
    changed: usize,
    now: u64,
    reachable: bool,
)
    requires
        schedules(v, one, config, changed, reachable),
        schedules(v, other, config, changed, reachable),
    ensures
        ({
            let a = recorded(v, one, config, changed, now, reachable);
            let b = recorded(v, other, config, changed, now, reachable);
            &&& a.deadline == b.deadline
            &&& a.first_pending == b.first_pending
            &&& a.changed_chars == b.changed_chars
        }),
{
}

/// Law: two changes one after the other count as one of their sum: together they reach the update
/// count exactly when the sum does, and the interval runs from the first of them.
pub proof fn law_changes_add_up(
    v: StateView,
    one: SnapshotView,
    other: SnapshotView,
    config: ConfigView,
    a: usize,
    b: usize,
    now: u64,
    later: u64,
)
    requires
        state_ok(v),
        v.pending is None,
        v.attempted,
        now <= later,
        config.update_time > 0,
        schedules(v, one, config, a, true),
        schedules(v, other, config, b, true),
    ensures
        ({
            let first = recorded(v, one, config, a, now, true);
            let both = recorded(first, other, config, b, later, true);
            let due = now + config.update_time * 1_000_000_000;
            &&& both.pending == Some((other, config))
            &&& both.first_pending == Some(now)
            &&& both.changed_chars == (if a + b <= usize::MAX {
                a + b
            } else {
                usize::MAX as int
            })
            &&& a + b < config.update_count ==> both.deadline is Some && both.deadline->0 == due
            &&& a < config.update_count <= a + b ==> both.deadline is Some && both.deadline->0
                == (if due <= later {
                due
            } else {
                later as int
            })
            &&& a >= config.update_count ==> both.deadline is Some && both.deadline->0 == now
        }),
{
}

/// Law: a change that is scheduled makes this snapshot the pending and the cached one, clears an
/// earlier failure and what was to be told, and touches nothing else: neither the write in
/// progress nor its fence, nor the published path, nor what was recovered.
pub proof fn law_scheduling_touches_nothing_else(
    v: StateView,
    snapshot: SnapshotView,
    config: ConfigView,
    changed: usize,
    now: u64,
    reachable: bool,
)
    requires
        state_ok(v),
        schedules(v, snapshot, config, changed, reachable),
    ensures
        ({
            let next = recorded(v, snapshot, config, changed, now, reachable);
            &&& next.pending == Some((snapshot, config))
            &&& next.cached == Some(snapshot)
            &&& next.changed_chars == v.changed_chars + changed || (next.changed_chars == usize::MAX
                && v.changed_chars + changed > usize::MAX)
            &&& !next.failed && !next.oversized && next.notice is None
            &&& untouched(v, next)
            &&& next.ignore_through == v.ignore_through
            &&& next.sleep == v.sleep
            &&& next.cwd == v.cwd
            &&& next.published_path == v.published_path
            &&& next.recovered_revision == v.recovered_revision
        }),
{
}

/// What changes of the text, of the settings and of the metadata leave alone.
pub open spec fn untouched(v: StateView, next: StateView) -> bool {
    &&& next.worker == v.worker
    &&& next.worker_generation == v.worker_generation
    &&& next.worker_unnamed == v.worker_unnamed
    &&& next.generation == v.generation
    &&& next.attempted == v.attempted
    &&& next.unnamed_reported == v.unnamed_reported
    &&& next.recovered_written == v.recovered_written
    &&& next.closed == v.closed
}

/// Nothing is pending, and no timer runs.
pub open spec fn nothing_pending(v: StateView) -> bool {
    &&& v.pending is None
    &&& v.changed_chars == 0
    &&& v.first_pending is None
    &&& v.deadline is None
    &&& v.sleep is None
}

/// Law: a change that is not scheduled leaves nothing new pending. A closed state ignores it. A
/// failure that waits for a change only caches the snapshot. A text over the limit and a deadline
/// that the clock cannot represent drop what was pending, cache the snapshot and are told. In no
/// case is the published path, the fence or the write in progress touched.
pub proof fn law_changes_that_are_not_scheduled(
    v: StateView,
    snapshot: SnapshotView,
    config: ConfigView,
    changed: usize,
    now: u64,
    reachable: bool,
)
    requires
        state_ok(v),
        config.enable,
        !schedules(v, snapshot, config, changed, reachable),
    ensures
        ({
            let next = recorded(v, snapshot, config, changed, now, reachable);
            let over = config.size_threshold != 0 && text_size(snapshot) > config.size_threshold;
            let waits = v.failed && changed == 0;
            &&& untouched(v, next)
            &&& next.ignore_through == v.ignore_through
            &&& next.cwd == v.cwd
            &&& next.published_path == v.published_path
            &&& next.recovered_revision == v.recovered_revision
            &&& v.closed ==> next == v
            &&& !v.closed ==> next.cached == Some(snapshot) && next.failed == waits
            &&& !v.closed && waits ==> {
                &&& next.pending == v.pending
                &&& next.deadline == v.deadline
                &&& next.first_pending == v.first_pending
                &&& next.changed_chars == v.changed_chars
                &&& next.sleep == v.sleep
                &&& next.notice == v.notice
                &&& next.oversized == v.oversized
            }
            &&& !v.closed && !waits ==> nothing_pending(next)
            &&& !v.closed && !waits && over ==> next.oversized
            &&& !v.closed && !waits && over && !v.oversized ==> next.notice == Some(
                NoticeView::Oversized(config.size_threshold),
            )
            &&& !v.closed && !waits && over && v.oversized ==> next.notice == v.notice
            &&& !v.closed && !waits && !over ==> !reachable && !next.oversized && next.notice
                == Some(NoticeView::UpdateTimeTooLarge)
        }),
{
}

/// Law: disabling drops the cached and the pending snapshot and what was to be told, and fences
/// off every write so far. The published path, what was recovered and the number of the next
/// write stay, so that enabling again goes on from there.
pub proof fn law_disabling_drops_and_fences(
    v: StateView,
    snapshot: SnapshotView,
    config: ConfigView,
    changed: usize,
    now: u64,
    reachable: bool,
)
    requires
        !config.enable,
    ensures
        recorded(v, snapshot, config, changed, now, reachable) == disabled(v),
        ({
            let next = disabled(v);
            &&& nothing_pending(next)
            &&& next.cached is None && next.notice is None && !next.oversized
            &&& next.ignore_through == v.generation
            &&& untouched(v, next)
            &&& next.failed == v.failed
            &&& next.cwd == v.cwd
            &&& next.published_path == v.published_path
            &&& next.recovered_revision == v.recovered_revision
        }),
{
}

/// Law: a claim that is taken over brings its working directory and its path. The state and the
/// cached snapshot have the working directory that was saved in the claimed file, whatever theirs
/// was before; the rest of the cached snapshot is that of the buffer. Writes so far are fenced
/// off, nothing is pending, and the backup is to be retained until a revision from this one on is
/// saved.
pub proof fn law_recovery_brings_its_working_directory(
    v: StateView,
    recovery: RecoveryView,
    snapshot: SnapshotView,
    revision: usize,
)
    ensures
        ({
            let next = with_recovery(v, recovery, snapshot, revision);
            &&& next.cwd == recovery.snapshot.cwd
            &&& next.published_path == Some(recovery.file.path)
            &&& next.cached matches Some(cached)
            &&& cached.cwd == recovery.snapshot.cwd
            &&& cached.path == snapshot.path
            &&& cached.text == snapshot.text
            &&& cached.encoding == snapshot.encoding
            &&& cached.has_bom == snapshot.has_bom
            &&& cached.line_ending == snapshot.line_ending
            &&& cached.selections == snapshot.selections
            &&& cached.primary == snapshot.primary
            &&& next.recovered_revision == Some(revision)
            &&& !next.recovered_written
            &&& nothing_pending(next)
            &&& next.notice is None && !next.oversized
            &&& next.ignore_through == v.generation
            &&& next.generation == v.generation
            &&& next.worker == v.worker && next.worker_generation == v.worker_generation
            &&& next.attempted == v.attempted && next.failed == v.failed
            &&& next.worker_unnamed == v.worker_unnamed
            &&& next.unnamed_reported == v.unnamed_reported
            &&& next.closed == v.closed
        }),
{
}

/// Law: the saved metadata is refreshed in place. Text, selections and working directory are
/// those of the cached snapshot; path, encoding, byte order mark and line ending are the new ones.
/// Without a cached snapshot nothing happens. Where it is scheduled it is due at once, as no
/// change was counted; where recovery is disabled it stays cached.
pub proof fn law_refresh_changes_only_the_metadata(
    v: StateView,
    path: Option<Seq<u8>>,
    encoding: Seq<char>,
    has_bom: bool,
    line_ending: Seq<char>,
    config: ConfigView,
    now: u64,
    reachable: bool,
)
    requires
        state_ok(v),
    ensures
        ({
            let next = refreshed(
                v,
                path,
                encoding,
                has_bom,
                line_ending,
                config,
                now,
                reachable,
            );
            &&& v.cached is None ==> next == v
            &&& v.cached matches Some(cached) ==> {
                let shown = SnapshotView { path, encoding, has_bom, line_ending, ..cached };
                &&& untouched(v, next)
                &&& next.cwd == v.cwd
                &&& next.published_path == v.published_path
                &&& next.failed == v.failed
                &&& next.recovered_revision == v.recovered_revision
                &&& config.enable && v.closed ==> next == v
                &&& !(config.enable && v.closed) ==> next.cached == Some(shown)
                &&& !config.enable ==> nothing_pending(next) && next.ignore_through == v.generation
                    && next.notice is None && !next.oversized
                &&& schedules(v, shown, config, 0, reachable) ==> {
                    &&& next.pending == Some((shown, config))
                    &&& next.deadline is Some && next.deadline->0 == now
                    &&& next.changed_chars == v.changed_chars
                    &&& v.pending is Some ==> next.first_pending == v.first_pending
                    &&& v.pending is None ==> next.first_pending == Some(now)
                    &&& next.ignore_through == v.ignore_through
                    &&& next.notice is None && !next.oversized
                }
                &&& config.enable ==> next == (StateView {
                    deadline: next.deadline,
                    ..recorded(v, shown, config, 0, now, reachable)
                })
                &&& config.enable && !v.closed && next.pending is Some ==> next.deadline is Some
                    && next.deadline->0 == now
            }
        }),
{
}

/// Law: a new configuration tries a failed write again: the cached snapshot is due at once with
/// the new settings, as if nothing had failed. Without a cached snapshot only the failure is
/// forgotten.
pub proof fn law_new_configuration_retries(
    v: StateView,
    config: ConfigView,
    now: u64,
    reachable: bool,
)
    requires
        state_ok(v),
    ensures
        ({
            let next = reconfigured(v, config, now, reachable);
            &&& untouched(v, next)
            &&& !next.failed
            &&& next.cwd == v.cwd
            &&& next.published_path == v.published_path
            &&& next.recovered_revision == v.recovered_revision
            &&& v.cached is None ==> {
                &&& next.cached is None
                &&& next.pending == v.pending && next.deadline == v.deadline
                &&& next.ignore_through == v.ignore_through && next.notice == v.notice
            }
            &&& v.cached matches Some(cached) ==> {
                let over = config.size_threshold != 0 && text_size(cached) > config.size_threshold;
                &&& config.enable ==> next.cached == Some(cached)
                &&& !config.enable ==> next.cached is None && nothing_pending(next)
                    && next.ignore_through == v.generation
                &&& config.enable && !v.closed && !over && reachable ==> {
                    &&& next.pending == Some((cached, config))
                    &&& next.deadline is Some && next.deadline->0 == now
                    &&& next.changed_chars == v.changed_chars
                    &&& next.ignore_through == v.ignore_through
                }
                &&& config.enable && !v.closed && over ==> nothing_pending(next) && next.oversized
                &&& config.enable && !v.closed && !over && !reachable ==> nothing_pending(next)
                    && next.notice == Some(NoticeView::UpdateTimeTooLarge)
            }
        }),
{
}

/// Law: a saved text replaces the cached one and nothing else but selections that lie beyond its
/// end: their ends move to the end of the text, every other end stays, and all of them fit.
pub proof fn law_saved_text_keeps_the_rest(v: StateView, text: Seq<char>)
    requires
        text.len() <= usize::MAX,
    ensures
        ({
            let next = with_saved_text(v, text);
            &&& v.cached is None ==> next == v
            &&& v.cached matches Some(cached) ==> {
                &&& next == (StateView { cached: next.cached, ..v })
                &&& next.cached matches Some(saved)
                &&& saved == (SnapshotView { text, selections: saved.selections, ..cached })
                &&& saved.selections.len() == cached.selections.len()
                &&& forall|i: int|
                    #![trigger saved.selections[i]]
                    0 <= i < cached.selections.len() ==> {
                        let (anchor, head) = cached.selections[i];
                        &&& anchor <= text.len() ==> saved.selections[i].0 == anchor
                        &&& anchor > text.len() ==> saved.selections[i].0 == text.len()
                        &&& head <= text.len() ==> saved.selections[i].1 == head
                        &&& head > text.len() ==> saved.selections[i].1 == text.len()
                    }
            }
        }),
{
}

/// Law: only a save of a revision that is not older than the recovery is noted, and once noted it
/// stays so. Without a recovery none is.
pub proof fn law_saved_revisions(v: StateView, revision: usize, again: usize)
    ensures
        ({
            let next = marked_written(v, revision);
            &&& next == (StateView { recovered_written: next.recovered_written, ..v })
            &&& v.recovered_written ==> next.recovered_written
            &&& v.recovered_revision is None ==> next == v
            &&& v.recovered_revision matches Some(recovered) ==> (!v.recovered_written ==> (
            next.recovered_written <==> revision >= recovered))
            &&& next.recovered_written ==> marked_written(next, again).recovered_written
        }),
{
}

/// Law: an explicit write takes the next generation and fences off all before it. It drops what
/// was pending and counts as a failure until it has succeeded; then the failure is forgotten and
/// the path is reported. An unnamed buffer then counts as told.
pub proof fn law_explicit_write(v: StateView, snapshot: SnapshotView, unnamed: bool, path: Seq<u8>)
    requires
        v.generation < u64::MAX,
    ensures
        ({
            let begun = preserving(v, snapshot);
            let done = preserved(begun, unnamed, path);
            &&& begun.generation == v.generation + 1
            &&& begun.ignore_through == begun.generation
            &&& begun.attempted && begun.failed
            &&& begun.cached == Some(snapshot)
            &&& begun.notice is None
            &&& nothing_pending(begun)
            &&& begun.cwd == v.cwd && begun.published_path == v.published_path
            &&& begun.worker == v.worker && begun.worker_generation == v.worker_generation
            &&& begun.worker_unnamed == v.worker_unnamed
            &&& begun.unnamed_reported == v.unnamed_reported && begun.oversized == v.oversized
            &&& begun.recovered_revision == v.recovered_revision
            &&& begun.recovered_written == v.recovered_written && begun.closed == v.closed
            &&& done == (StateView {
                failed: false,
                oversized: false,
                published_path: Some(path),
                unnamed_reported: v.unnamed_reported || unnamed,
                ..begun
            })
        }),
{
}

/// Law: a poll tells first what is to be told, and once. Then it waits for the write in progress,
/// is idle where nothing is pending, waits exactly for the deadline where it lies ahead, and else
/// hands the pending snapshot with its settings to a writer.
pub proof fn law_poll_order(v: StateView, now: u64)
    requires
        state_ok(v),
        v.generation < u64::MAX,
    ensures
        ({
            let (next, step) = polled(v, now);
            &&& v.closed ==> next == v && step == StepView::Idle
            &&& !v.closed && v.notice is Some ==> step == StepView::Report(v.notice) && next == (
            StateView { notice: None, ..v })
            &&& !v.closed && v.notice is None && v.worker ==> step == StepView::PollWorker && next
                == v
            &&& !v.closed && v.notice is None && !v.worker && v.pending is None ==> step
                == StepView::Idle && next == v
            &&& !v.closed && v.notice is None && !v.worker && v.pending is Some
                && v.deadline->0 > now ==> step == StepView::PollSleep(v.deadline->0) && next == (
            StateView { sleep: v.deadline, ..v })
            &&& !v.closed && v.notice is None && !v.worker && v.pending is Some
                && v.deadline->0 <= now ==> (next, step) == started(v)
        }),
{
}

/// Law: a writer gets the pending snapshot with its settings and the next generation. From then on
/// nothing is pending and no change is counted, the first snapshot was attempted, and whether the
/// buffer is unnamed is that of the snapshot.
pub proof fn law_writer_gets_the_pending_snapshot(v: StateView)
    requires
        v.pending is Some,
        v.generation < u64::MAX,
    ensures
        ({
            let (next, step) = started(v);
            let (snapshot, config) = v.pending->0;
            &&& step == StepView::StartWorker(snapshot, config, next.generation)
            &&& next.generation == v.generation + 1
            &&& next.worker && next.worker_generation == next.generation
            &&& next.worker_unnamed == (snapshot.path is None)
            &&& next.attempted
            &&& nothing_pending(next)
            &&& next.cached == v.cached && next.cwd == v.cwd
            &&& next.published_path == v.published_path && next.ignore_through == v.ignore_through
            &&& next.failed == v.failed && next.oversized == v.oversized && next.notice == v.notice
            &&& next.unnamed_reported == v.unnamed_reported
            &&& next.recovered_revision == v.recovered_revision
            &&& next.recovered_written == v.recovered_written && next.closed == v.closed
        }),
{
}

/// Law: the end of a write that is not fenced off is reported, and none is in progress any more.
/// A success sets the published path where there is one, and tells it once of an unnamed buffer. A
/// failure without a change since the write began drops what is pending and waits for a change;
/// with one, everything stays pending.
pub proof fn law_end_of_a_write(v: StateView, outcome: OutcomeView, now: u64)
    requires
        state_ok(v),
        v.worker,
        v.worker_generation > v.ignore_through,
    ensures
        ({
            let (next, step) = worker_ended(v, outcome, now);
            let idle = StateView { worker: false, ..v };
            &&& !next.worker
            &&& outcome is Failed ==> step == StepView::ReportFailure && next.published_path
                == v.published_path
            &&& outcome is Failed && v.changed_chars == 0 ==> next.failed && nothing_pending(next)
                && untouched(idle, next) && next.cwd == v.cwd && next.notice == v.notice
                && next.oversized == v.oversized && next.recovered_revision
                == v.recovered_revision
            &&& outcome is Failed && v.changed_chars > 0 ==> next == idle
            &&& outcome is Failed ==> next.cached == v.cached && next.generation == v.generation
                && next.attempted == v.attempted && next.ignore_through == v.ignore_through
            &&& outcome == OutcomeView::Written(None) ==> step == StepView::Report(None) && next
                == idle
            &&& outcome matches OutcomeView::Written(Some(path)) ==> {
                let tell = v.worker_unnamed && !v.unnamed_reported;
                &&& next == (StateView {
                    published_path: Some(path),
                    unnamed_reported: v.unnamed_reported || v.worker_unnamed,
                    ..idle
                })
                &&& tell ==> step == StepView::Report(Some(NoticeView::RecoveryFile(path)))
                &&& !tell ==> step == StepView::Report(None)
            }
        }),
{
}

/// Law: the end of a write that is fenced off is passed over, whatever it was: the state goes on
/// as if it had not been there, and waits for or starts what is pending.
pub proof fn law_fenced_outcome_is_passed_over(
    v: StateView,
    outcome: OutcomeView,
    other: OutcomeView,
    now: u64,
)
    requires
        state_ok(v),
        v.worker,
        v.worker_generation <= v.ignore_through,
        v.generation < u64::MAX,
    ensures
        ({
            let (next, step) = worker_ended(v, outcome, now);
            let idle = StateView { worker: false, ..v };
            &&& worker_ended(v, other, now) == (next, step)
            &&& next.published_path == v.published_path && next.failed == v.failed
            &&& v.pending is None ==> step == StepView::Idle && next == idle
            &&& v.pending is Some && v.deadline->0 > now ==> step == StepView::PollSleep(
                v.deadline->0,
            ) && next == (StateView { sleep: v.deadline, ..idle })
            &&& v.pending is Some && v.deadline->0 <= now ==> {
                let (snapshot, config) = v.pending->0;
                step == StepView::StartWorker(snapshot, config, (v.generation + 1) as u64)
            }
        }),
{
}

/// Law: a close drops everything and keeps only what its retention rests on. Backups are retained
/// unless recovered work was saved and the settings do not ask for them.
pub proof fn law_close_of_a_state(v: StateView, keep_recovered: bool)
    ensures
        ({
            let next = shut_down(v);
            &&& next.closed && !next.worker
            &&& nothing_pending(next)
            &&& next.cached is None && next.notice is None && !next.oversized
            &&& next.ignore_through == v.generation && next.generation == v.generation
            &&& next.cwd == v.cwd && next.published_path == v.published_path
            &&& next.recovered_revision == v.recovered_revision
            &&& next.recovered_written == v.recovered_written
            &&& next.attempted == v.attempted && next.failed == v.failed
            &&& next.unnamed_reported == v.unnamed_reported
            &&& next.worker_generation == v.worker_generation
        }),
        retention(v, keep_recovered) <==> (keep_recovered || !v.recovered_written),
{
}

/// Law: a new buffer has nothing cached, pending, told, attempted or recovered, and its working
/// directory is the current one. Where the system does not report one it is the directory of the
/// program, if that is absolute and lies in one, and else the root: never a relative one.
pub proof fn law_new_state(current: Option<Seq<u8>>, program: Option<Seq<u8>>)
    ensures
        ({
            let cwd = initial_cwd_of(current, program);
            let v = initial_state(cwd);
            &&& current matches Some(given) ==> cwd == given
            &&& current is None ==> is_absolute(cwd)
            &&& current is None && program is Some && is_absolute(program->0) && components(
                program->0,
            ).len() > 1 ==> components(cwd) == components(program->0).drop_last()
            &&& current is None && !(program is Some && is_absolute(program->0) && components(
                program->0,
            ).len() > 1) ==> cwd == seq![47u8]
            &&& v.cwd == cwd
            &&& nothing_pending(v)
            &&& v.published_path is None && v.cached is None && v.notice is None
            &&& !v.worker && v.generation == 0 && v.worker_generation == 0 && v.ignore_through == 0
            &&& !v.worker_unnamed && !v.attempted && !v.failed && !v.unnamed_reported
            &&& !v.oversized && v.recovered_revision is None && !v.recovered_written && !v.closed
        }),
{
    reveal_strlit("/");
    vstd::utf8::is_ascii_chars_encode_utf8("/"@);
    assert(encode_utf8("/"@) =~= seq![47u8]);
    if let Some(path) = program {
        law_parent_drops_last_component(path);
        if let Some(parent) = parent_of(path) {
            lemma_parent_is_prefix(path);
            if is_absolute(path) {
                assert(is_absolute(parent));
                assert(components(parent).len() > 0);
            }
        }
    }
}

/// Law: a recovered buffer stays with the file that it was recovered from. A refresh that follows
/// the recovery schedules a snapshot with the working directory of the claimed file, and a write
/// of it with the settings of the claim does not move, unless the claimed file is a backup.
pub proof fn law_recovered_buffer_stays_with_its_file(
    v: StateView,
    s: SwapView,
    opened: Opened,
    shown: SnapshotView,
    revision: usize,
    encoding: Seq<char>,
    has_bom: bool,
    line_ending: Seq<char>,
    config: ConfigView,
    expanded: Seq<Seq<u8>>,
    header: Seq<u8>,
    state_directory: Seq<u8>,
    now: u64,
)
    requires
        state_ok(v),
        !v.closed,
        !v.failed,
        config.enable,
        !over_threshold(text_size(shown), config.size_threshold),
        !is_archive(opened.path@),
    ensures
        ({
            let claim = recovery_of(opened, config, expanded);
            let taken = with_recovery(v, claim, shown, revision);
            let swap = adopted(s, claim);
            let next = refreshed(
                taken,
                claim.source_path,
                encoding,
                has_bom,
                line_ending,
                config,
                now,
                true,
            );
            &&& next.pending matches Some((snapshot, settings))
            &&& settings == config
            &&& snapshot.cwd == opened.header@.cwd
            &&& snapshot.text == shown.text
            &&& !plan_of(swap, snapshot, header, settings, expanded, state_directory).migrate
            &&& current_path(swap) == Some(opened.path@)
            &&& next.published_path == Some(opened.path@)
        }),
{
}

} // verus!
