//! When snapshots of one buffer are taken: one writer at a time and one pending snapshot, which
//! newer ones replace.

use vstd::prelude::*;
use vstd::utf8::encode_utf8;

use crate::claim::{Recovery, RecoveryView};
use crate::config::{deadline_answers, deadline_reaches, Config, ConfigView};
use crate::files::placed;
use crate::model::swap_ok;
use crate::paths::{clone_option, is_absolute, parent_of, path_option, NativePath};
use crate::snapshot::{over_threshold, text_size, Snapshot, SnapshotView};
use crate::swap::{adopted, Swap};
use crate::text::{rope_clone, rope_len_chars, rope_text};

verus! {

pub const NANOS_PER_SECOND: u128 = 1_000_000_000;

/// What is to be told to the user.
#[derive(Debug)]
pub enum Notice {
    /// The text is over the size limit of this many bytes; the previous file is retained.
    Oversized(usize),
    /// The deadline cannot be represented; the previous snapshot is retained.
    UpdateTimeTooLarge,
    /// Where an unnamed buffer is preserved.
    RecoveryFile(NativePath),
}

pub enum NoticeView {
    Oversized(usize),
    UpdateTimeTooLarge,
    RecoveryFile(Seq<u8>),
}

impl View for Notice {
    type V = NoticeView;

    open spec fn view(&self) -> NoticeView {
        match self {
            Notice::Oversized(threshold) => NoticeView::Oversized(*threshold),
            Notice::UpdateTimeTooLarge => NoticeView::UpdateTimeTooLarge,
            Notice::RecoveryFile(path) => NoticeView::RecoveryFile(path@),
        }
    }
}

pub open spec fn notice_option(notice: Option<Notice>) -> Option<NoticeView> {
    match notice {
        Some(n) => Some(n@),
        None => None,
    }
}

/// The state of the recovery of one buffer. Times are in nanoseconds of one clock. Timers and
/// writers are driven by the owner polling this state.
#[derive(Debug)]
pub struct State {
    pub cwd: NativePath,
    pub published_path: Option<NativePath>,
    /// Whether a write is in progress.
    pub worker: bool,
    pub worker_generation: u64,
    pub worker_unnamed: bool,
    pub generation: u64,
    /// The outcome of a write up to this generation is not reported.
    pub ignore_through: u64,
    pub cached: Option<Snapshot>,
    pub pending: Option<(Snapshot, Config)>,
    pub changed_chars: usize,
    pub first_pending: Option<u64>,
    pub deadline: Option<u128>,
    /// What the timer is set to.
    pub sleep: Option<u128>,
    pub attempted: bool,
    pub failed: bool,
    pub unnamed_reported: bool,
    pub oversized: bool,
    pub notice: Option<Notice>,
    pub recovered_revision: Option<usize>,
    pub recovered_written: bool,
    pub closed: bool,
}

/// What a state stands for.
pub struct StateView {
    pub cwd: Seq<u8>,
    pub published_path: Option<Seq<u8>>,
    pub worker: bool,
    pub worker_generation: u64,
    pub worker_unnamed: bool,
    pub generation: u64,
    pub ignore_through: u64,
    pub cached: Option<SnapshotView>,
    pub pending: Option<(SnapshotView, ConfigView)>,
    pub changed_chars: usize,
    pub first_pending: Option<u64>,
    pub deadline: Option<u128>,
    pub sleep: Option<u128>,
    pub attempted: bool,
    pub failed: bool,
    pub unnamed_reported: bool,
    pub oversized: bool,
    pub notice: Option<NoticeView>,
    pub recovered_revision: Option<usize>,
    pub recovered_written: bool,
    pub closed: bool,
}

pub open spec fn cached_view(cached: Option<Snapshot>) -> Option<SnapshotView> {
    match cached {
        Some(snapshot) => Some(snapshot@),
        None => None,
    }
}

pub open spec fn pending_view(pending: Option<(Snapshot, Config)>) -> Option<
    (SnapshotView, ConfigView),
> {
    match pending {
        Some((snapshot, config)) => Some((snapshot@, config@)),
        None => None,
    }
}

impl View for State {
    type V = StateView;

    open spec fn view(&self) -> StateView {
        StateView {
            cwd: self.cwd@,
            published_path: path_option(self.published_path),
            worker: self.worker,
            worker_generation: self.worker_generation,
            worker_unnamed: self.worker_unnamed,
            generation: self.generation,
            ignore_through: self.ignore_through,
            cached: cached_view(self.cached),
            pending: pending_view(self.pending),
            changed_chars: self.changed_chars,
            first_pending: self.first_pending,
            deadline: self.deadline,
            sleep: self.sleep,
            attempted: self.attempted,
            failed: self.failed,
            unnamed_reported: self.unnamed_reported,
            oversized: self.oversized,
            notice: notice_option(self.notice),
            recovered_revision: self.recovered_revision,
            recovered_written: self.recovered_written,
            closed: self.closed,
        }
    }
}

/// A snapshot is pending exactly while there is a deadline for it and a first change that it is
/// counted from. Nothing is pending or being written once the state is closed.
pub open spec fn state_ok(v: StateView) -> bool {
    &&& v.deadline is Some <==> v.pending is Some
    &&& v.first_pending is Some <==> v.pending is Some
    &&& v.sleep is Some ==> v.pending is Some
    &&& v.changed_chars > 0 ==> v.pending is Some
    &&& v.worker_generation <= v.generation
    &&& v.ignore_through <= v.generation
    &&& v.closed ==> v.pending is None && !v.worker
}

/// The working directory of a buffer: the current one, else that of the program where it is
/// absolute, else the root. It is never relative where the current one is not.
pub open spec fn initial_cwd_of(current: Option<Seq<u8>>, program: Option<Seq<u8>>) -> Seq<u8> {
    match current {
        Some(cwd) => cwd,
        None => if program is Some && is_absolute(program->0) && parent_of(program->0) is Some {
            parent_of(program->0)->0
        } else {
            encode_utf8("/"@)
        },
    }
}

/// A state in which nothing has happened yet.
pub open spec fn initial_state(cwd: Seq<u8>) -> StateView {
    StateView {
        cwd,
        published_path: None,
        worker: false,
        worker_generation: 0,
        worker_unnamed: false,
        generation: 0,
        ignore_through: 0,
        cached: None,
        pending: None,
        changed_chars: 0,
        first_pending: None,
        deadline: None,
        sleep: None,
        attempted: false,
        failed: false,
        unnamed_reported: false,
        oversized: false,
        notice: None,
        recovered_revision: None,
        recovered_written: false,
        closed: false,
    }
}

pub open spec fn cleared(v: StateView) -> StateView {
    StateView {
        pending: None,
        changed_chars: 0,
        first_pending: None,
        deadline: None,
        sleep: None,
        ..v
    }
}

/// Nothing is kept or reported any more, not even of a write in progress.
pub open spec fn disabled(v: StateView) -> StateView {
    StateView {
        cached: None,
        notice: None,
        oversized: false,
        ignore_through: v.generation,
        ..cleared(v)
    }
}

pub open spec fn saturated(a: usize, b: usize) -> usize {
    if a + b > usize::MAX {
        usize::MAX
    } else {
        (a + b) as usize
    }
}

pub open spec fn earlier(a: u128, b: u128) -> u128 {
    if a <= b {
        a
    } else {
        b
    }
}

/// The first pending change, which later ones do not move.
pub open spec fn first_change(v: StateView, now: u64) -> u64 {
    match v.first_pending {
        Some(first) => first,
        None => now,
    }
}

/// The longest that a change may stay pending.
pub open spec fn due_time(first: u64, config: ConfigView) -> u128 {
    (first + config.update_time * NANOS_PER_SECOND) as u128
}

/// When the pending snapshot is to be written: at most the update interval behind the first
/// change, and at once for the first snapshot or when enough characters have changed.
pub open spec fn scheduled(
    v: StateView,
    config: ConfigView,
    changed: usize,
    now: u64,
) -> u128 {
    let due = due_time(first_change(v, now), config);
    let planned = match v.deadline {
        Some(deadline) => earlier(deadline, due),
        None => due,
    };
    if !v.attempted || saturated(v.changed_chars, changed) >= config.update_count {
        earlier(planned, now as u128)
    } else {
        planned
    }
}

/// A change of `changed` characters. `reachable` is whether the clock can represent the deadline.
pub open spec fn recorded(
    v: StateView,
    snapshot: SnapshotView,
    config: ConfigView,
    changed: usize,
    now: u64,
    reachable: bool,
) -> StateView {
    let seen = StateView {
        cached: Some(snapshot),
        failed: v.failed && changed == 0,
        ..v
    };
    if !config.enable {
        disabled(v)
    } else if v.closed {
        v
    } else if seen.failed {
        seen
    } else if over_threshold(text_size(snapshot), config.size_threshold) {
        StateView {
            notice: if v.oversized {
                v.notice
            } else {
                Some(NoticeView::Oversized(config.size_threshold))
            },
            oversized: true,
            ..cleared(seen)
        }
    } else if !reachable {
        StateView {
            oversized: false,
            notice: Some(NoticeView::UpdateTimeTooLarge),
            ..cleared(seen)
        }
    } else {
        StateView {
            oversized: false,
            notice: None,
            changed_chars: saturated(v.changed_chars, changed),
            first_pending: Some(first_change(v, now)),
            deadline: Some(scheduled(v, config, changed, now)),
            pending: Some((snapshot, config)),
            ..seen
        }
    }
}

/// A pending snapshot becomes due at once.
pub open spec fn hastened(v: StateView, now: u64) -> StateView {
    if v.pending is Some {
        StateView { deadline: Some(now as u128), ..v }
    } else {
        v
    }
}

/// New metadata for the cached text.
pub open spec fn refreshed(
    v: StateView,
    path: Option<Seq<u8>>,
    encoding: Seq<char>,
    has_bom: bool,
    line_ending: Seq<char>,
    config: ConfigView,
    now: u64,
    reachable: bool,
) -> StateView {
    match v.cached {
        None => v,
        Some(cached) => {
            let snapshot = SnapshotView { path, encoding, has_bom, line_ending, ..cached };
            if !config.enable {
                StateView { cached: Some(snapshot), ..disabled(v) }
            } else {
                hastened(recorded(v, snapshot, config, 0, now, reachable), now)
            }
        },
    }
}

pub open spec fn clamped(selection: (usize, usize), length: nat) -> (usize, usize) {
    (
        if selection.0 <= length {
            selection.0
        } else {
            length as usize
        },
        if selection.1 <= length {
            selection.1
        } else {
            length as usize
        },
    )
}

/// The cached snapshot takes the text that was saved, with its selections kept inside.
pub open spec fn with_saved_text(v: StateView, text: Seq<char>) -> StateView {
    match v.cached {
        None => v,
        Some(cached) => StateView {
            cached: Some(
                SnapshotView {
                    text,
                    selections: Seq::new(
                        cached.selections.len(),
                        |i: int| clamped(cached.selections[i], text.len()),
                    ),
                    ..cached
                },
            ),
            ..v
        },
    }
}

/// A new configuration, also after a failure.
pub open spec fn reconfigured(
    v: StateView,
    config: ConfigView,
    now: u64,
    reachable: bool,
) -> StateView {
    let retried = StateView { failed: false, ..v };
    match v.cached {
        None => retried,
        Some(cached) => hastened(recorded(retried, cached, config, 0, now, reachable), now),
    }
}

/// A claim was applied to the buffer.
pub open spec fn with_recovery(
    v: StateView,
    recovery: RecoveryView,
    snapshot: SnapshotView,
    revision: usize,
) -> StateView {
    StateView {
        recovered_revision: Some(revision),
        recovered_written: false,
        cwd: recovery.snapshot.cwd,
        published_path: Some(recovery.file.path),
        cached: Some(SnapshotView { cwd: recovery.snapshot.cwd, ..snapshot }),
        ..disabled(v)
    }
}

/// A revision was saved: it authorizes the removal of the backup only if it is not older than the
/// recovery.
pub open spec fn marked_written(v: StateView, revision: usize) -> StateView {
    StateView {
        recovered_written: v.recovered_written || (v.recovered_revision matches Some(recovered)
            && revision >= recovered),
        ..v
    }
}

/// An explicit write is about to be made.
pub open spec fn preserving(v: StateView, snapshot: SnapshotView) -> StateView {
    StateView {
        notice: None,
        cached: Some(snapshot),
        generation: (v.generation + 1) as u64,
        ignore_through: (v.generation + 1) as u64,
        attempted: true,
        failed: true,
        ..cleared(v)
    }
}

/// An explicit write has published this path.
pub open spec fn preserved(v: StateView, unnamed: bool, path: Seq<u8>) -> StateView {
    StateView {
        failed: false,
        unnamed_reported: v.unnamed_reported || unnamed,
        oversized: false,
        published_path: Some(path),
        ..v
    }
}

/// What a poll asks for.
#[derive(Debug)]
pub enum Step {
    /// Nothing is to be done.
    Idle,
    /// Report that a write succeeded, or what is to be told.
    Report(Option<Notice>),
    /// Report the failure of the write.
    ReportFailure,
    /// Wait for the write in progress.
    PollWorker,
    /// Wait for this time.
    PollSleep(u128),
    /// Start to write this snapshot, and then wait for it.
    StartWorker(Snapshot, Config, u64),
}

pub enum StepView {
    Idle,
    Report(Option<NoticeView>),
    ReportFailure,
    PollWorker,
    PollSleep(u128),
    StartWorker(SnapshotView, ConfigView, u64),
}

impl View for Step {
    type V = StepView;

    open spec fn view(&self) -> StepView {
        match self {
            Step::Idle => StepView::Idle,
            Step::Report(notice) => StepView::Report(notice_option(*notice)),
            Step::ReportFailure => StepView::ReportFailure,
            Step::PollWorker => StepView::PollWorker,
            Step::PollSleep(until) => StepView::PollSleep(*until),
            Step::StartWorker(snapshot, config, generation) => StepView::StartWorker(
                snapshot@,
                config@,
                *generation,
            ),
        }
    }
}

/// How a write ended.
#[derive(Debug)]
pub enum Outcome {
    /// Published at this path, or there was nothing to write.
    Written(Option<NativePath>),
    Failed,
}

pub enum OutcomeView {
    Written(Option<Seq<u8>>),
    Failed,
}

impl View for Outcome {
    type V = OutcomeView;

    open spec fn view(&self) -> OutcomeView {
        match self {
            Outcome::Written(path) => OutcomeView::Written(path_option(*path)),
            Outcome::Failed => OutcomeView::Failed,
        }
    }
}

/// The pending snapshot is handed to a writer.
pub open spec fn started(v: StateView) -> (StateView, StepView) {
    let (snapshot, config) = v.pending->0;
    let generation = (v.generation + 1) as u64;
    (
        StateView {
            attempted: true,
            generation,
            worker_generation: generation,
            worker_unnamed: snapshot.path is None,
            worker: true,
            ..cleared(v)
        },
        StepView::StartWorker(snapshot, config, generation),
    )
}

/// What comes next: the write in progress, the deadline, or the pending snapshot.
pub open spec fn turned(v: StateView, now: u64) -> (StateView, StepView) {
    if v.worker {
        (v, StepView::PollWorker)
    } else {
        match v.deadline {
            None => (v, StepView::Idle),
            Some(deadline) => if deadline > now {
                (StateView { sleep: Some(deadline), ..v }, StepView::PollSleep(deadline))
            } else {
                started(v)
            },
        }
    }
}

/// What a poll comes to: what is to be told goes first.
pub open spec fn polled(v: StateView, now: u64) -> (StateView, StepView) {
    if v.closed {
        (v, StepView::Idle)
    } else if v.notice is Some {
        (StateView { notice: None, ..v }, StepView::Report(v.notice))
    } else {
        turned(v, now)
    }
}

/// The write in progress has ended. An outcome that is fenced off is passed over. A failure
/// without changes since then waits for the next change.
pub open spec fn worker_ended(v: StateView, outcome: OutcomeView, now: u64) -> (
    StateView,
    StepView,
) {
    let idle = StateView { worker: false, ..v };
    if v.worker_generation <= v.ignore_through {
        turned(idle, now)
    } else {
        match outcome {
            OutcomeView::Failed => (
                if v.changed_chars == 0 {
                    StateView { failed: true, ..cleared(idle) }
                } else {
                    idle
                },
                StepView::ReportFailure,
            ),
            OutcomeView::Written(None) => (idle, StepView::Report(None)),
            OutcomeView::Written(Some(path)) => {
                let tell = v.worker_unnamed && !v.unnamed_reported;
                (
                    StateView {
                        published_path: Some(path),
                        unnamed_reported: v.unnamed_reported || tell,
                        ..idle
                    },
                    StepView::Report(
                        if tell {
                            Some(NoticeView::RecoveryFile(path))
                        } else {
                            None
                        },
                    ),
                )
            },
        }
    }
}

/// The state is closed: nothing is written any more.
pub open spec fn shut_down(v: StateView) -> StateView {
    StateView { closed: true, worker: false, ..disabled(v) }
}

/// Whether the backups of recovered files are retained: always, unless recovered work was
/// written and the settings do not ask for them.
pub open spec fn retention(v: StateView, keep_recovered: bool) -> bool {
    keep_recovered || !v.recovered_written
}

/// Why a snapshot was not preserved.
#[derive(Debug, Clone, Copy, PartialEq, Eq, Structural)]
pub enum PreserveError {
    Closed,
    /// The text is over the size limit of this many bytes.
    Oversized(usize),
}

/// The working directory of a new buffer, from what the system reports.
pub fn initial_cwd(current: Option<NativePath>, program: Option<NativePath>) -> (r: NativePath)
    ensures
        r@ == initial_cwd_of(path_option(current), path_option(program)),
{
    match current {
        Some(cwd) => cwd,
        None => match program {
            Some(program) => if program.is_absolute() {
                match program.parent() {
                    Some(parent) => parent,
                    None => NativePath::from_text("/"),
                }
            } else {
                NativePath::from_text("/")
            },
            None => NativePath::from_text("/"),
        },
    }
}

fn saturating_sum(a: usize, b: usize) -> (r: usize)
    ensures
        r == saturated(a, b),
{
    if b > usize::MAX - a {
        usize::MAX
    } else {
        a + b
    }
}

fn minimum(a: u128, b: u128) -> (r: u128)
    ensures
        r == earlier(a, b),
{
    if a <= b {
        a
    } else {
        b
    }
}

fn clamp(value: usize, limit: usize) -> (r: usize)
    ensures
        r == (if value <= limit {
            value
        } else {
            limit
        }),
{
    if value <= limit {
        value
    } else {
        limit
    }
}

impl State {
    /// A state for a new buffer, from the current directory and the path of the program, as far
    /// as the system reports them.
    pub fn new(current: Option<NativePath>, program: Option<NativePath>) -> (r: State)
        ensures
            r@ == initial_state(initial_cwd_of(path_option(current), path_option(program))),
            state_ok(r@),
    {
        State {
            cwd: initial_cwd(current, program),
            published_path: None,
            worker: false,
            worker_generation: 0,
            worker_unnamed: false,
            generation: 0,
            ignore_through: 0,
            cached: None,
            pending: None,
            changed_chars: 0,
            first_pending: None,
            deadline: None,
            sleep: None,
            attempted: false,
            failed: false,
            unnamed_reported: false,
            oversized: false,
            notice: None,
            recovered_revision: None,
            recovered_written: false,
            closed: false,
        }
    }

    pub fn cwd(&self) -> (r: &NativePath)
        ensures
            r@ == self@.cwd,
    {
        &self.cwd
    }

    pub fn path(&self) -> (r: Option<NativePath>)
        ensures
            path_option(r) == self@.published_path,
    {
        clone_option(&self.published_path)
    }

    /// Whether anything is still to be written or reported.
    pub fn pending(&self) -> (r: bool)
        ensures
            r == (self@.pending is Some || self@.worker || self@.notice is Some),
    {
        self.pending.is_some() || self.worker || self.notice.is_some()
    }

    pub fn clear_pending(&mut self)
        requires
            state_ok(old(self)@),
        ensures
            final(self)@ == cleared(old(self)@),
            state_ok(final(self)@),
    {
        self.pending = None;
        self.changed_chars = 0;
        self.first_pending = None;
        self.deadline = None;
        self.sleep = None;
    }

    /// Drops everything that is pending. Returns whether a write in progress is to be aborted.
    pub fn disable(&mut self) -> (r: bool)
        requires
            state_ok(old(self)@),
        ensures
            final(self)@ == disabled(old(self)@),
            r == old(self)@.worker,
            state_ok(final(self)@),
    {
        self.clear_pending();
        self.cached = None;
        self.notice = None;
        self.oversized = false;
        self.ignore_through = self.generation;
        self.worker
    }

    /// Takes over a claim that was applied to the buffer, with the snapshot of the buffer and the
    /// revision that it has now. Returns whether a write in progress is to be aborted.
    pub fn recovered(
        &mut self,
        swap: &mut Swap,
        recovered: Recovery,
        snapshot: Snapshot,
        revision: usize,
    ) -> (r: bool)
        requires
            state_ok(old(self)@),
            swap_ok(old(swap)@),
            placed(recovered@.file),
        ensures
            final(self)@ == with_recovery(old(self)@, recovered@, snapshot@, revision),
            final(swap)@ == adopted(old(swap)@, recovered@),
            r == old(self)@.worker,
            state_ok(final(self)@),
            swap_ok(final(swap)@),
    {
        let abort = self.disable();
        self.recovered_revision = Some(revision);
        self.recovered_written = false;
        self.cwd = recovered.snapshot.cwd.clone();
        let mut snapshot = snapshot;
        snapshot.cwd = self.cwd.clone();
        self.published_path = Some(recovered.path().clone());
        swap.adopt(recovered);
        self.cached = Some(snapshot);
        abort
    }

    /// Notes that a revision of the buffer was saved. One that precedes the recovery does not
    /// authorize the removal of the backup.
    pub fn mark_written(&mut self, revision: usize)
        requires
            state_ok(old(self)@),
        ensures
            final(self)@ == marked_written(old(self)@, revision),
            state_ok(final(self)@),
    {
        if let Some(recovered) = self.recovered_revision {
            if revision >= recovered {
                self.recovered_written = true;
            }
        }
    }

    /// The first pending change if `now` is the time of another one: the deadline is counted
    /// from it.
    pub fn counted_from(&self, now: u64) -> (r: u64)
        ensures
            r == first_change(self@, now),
    {
        match self.first_pending {
            Some(first) => first,
            None => now,
        }
    }

    /// When a pending snapshot with this change is to be written.
    fn schedule(&self, config: &Config, changed_chars: usize, now: u64) -> (r: u128)
        ensures
            r == scheduled(self@, config@, changed_chars, now),
    {
        let first = self.counted_from(now);
        let total = saturating_sum(self.changed_chars, changed_chars);
        let seconds = config.update_time;
        assert(seconds * NANOS_PER_SECOND <= u64::MAX * NANOS_PER_SECOND) by (nonlinear_arith)
            requires
                seconds <= u64::MAX,
        ;
        let due: u128 = first as u128 + seconds as u128 * NANOS_PER_SECOND;
        let planned = match self.deadline {
            Some(deadline) => minimum(deadline, due),
            None => due,
        };
        if !self.attempted || total >= config.update_count {
            minimum(planned, now as u128)
        } else {
            planned
        }
    }

    /// Records a change. `reachable` is whether the clock can represent the deadline that is
    /// counted from the first pending change. Returns whether a write in progress is to be
    /// aborted.
    pub fn record_with(
        &mut self,
        snapshot: Snapshot,
        config: Config,
        changed_chars: usize,
        now: u64,
        reachable: bool,
    ) -> (r: bool)
        requires
            state_ok(old(self)@),
        ensures
            r == (!config@.enable && old(self)@.worker),
            final(self)@ == recorded(
                old(self)@,
                snapshot@,
                config@,
                changed_chars,
                now,
                reachable,
            ),
            state_ok(final(self)@),
    {
        if !config.enable {
            return self.disable();
        }
        if self.closed {
            return false;
        }
        let oversized = snapshot.exceeds(config.size_threshold);
        self.cached = Some(snapshot.clone());
        if changed_chars != 0 {
            self.failed = false;
        } else if self.failed {
            return false;
        }
        if oversized {
            self.hold_back(config.size_threshold);
        } else if !reachable {
            self.give_up();
        } else {
            self.enqueue(snapshot, config, changed_chars, now);
        }
        false
    }

    /// The text is over the size limit: this is told once.
    fn hold_back(&mut self, size_threshold: usize)
        requires
            state_ok(old(self)@),
        ensures
            final(self)@ == (StateView {
                notice: if old(self)@.oversized {
                    old(self)@.notice
                } else {
                    Some(NoticeView::Oversized(size_threshold))
                },
                oversized: true,
                ..cleared(old(self)@)
            }),
            state_ok(final(self)@),
    {
        self.clear_pending();
        if !self.oversized {
            self.notice = Some(Notice::Oversized(size_threshold));
        }
        self.oversized = true;
    }

    /// The deadline cannot be represented.
    fn give_up(&mut self)
        requires
            state_ok(old(self)@),
        ensures
            final(self)@ == (StateView {
                oversized: false,
                notice: Some(NoticeView::UpdateTimeTooLarge),
                ..cleared(old(self)@)
            }),
            state_ok(final(self)@),
    {
        self.clear_pending();
        self.oversized = false;
        self.notice = Some(Notice::UpdateTimeTooLarge);
    }

    /// The snapshot becomes the pending one.
    fn enqueue(&mut self, snapshot: Snapshot, config: Config, changed_chars: usize, now: u64)
        requires
            state_ok(old(self)@),
            !old(self)@.closed,
        ensures
            final(self)@ == (StateView {
                oversized: false,
                notice: None,
                changed_chars: saturated(old(self)@.changed_chars, changed_chars),
                first_pending: Some(first_change(old(self)@, now)),
                deadline: Some(scheduled(old(self)@, config@, changed_chars, now)),
                pending: Some((snapshot@, config@)),
                ..old(self)@
            }),
            state_ok(final(self)@),
    {
        let first = self.counted_from(now);
        let deadline = self.schedule(&config, changed_chars, now);
        self.oversized = false;
        self.notice = None;
        self.changed_chars = saturating_sum(self.changed_chars, changed_chars);
        self.first_pending = Some(first);
        self.deadline = Some(deadline);
        self.pending = Some((snapshot, config));
    }

    fn hasten(&mut self, now: u64)
        requires
            state_ok(old(self)@),
        ensures
            final(self)@ == hastened(old(self)@, now),
            state_ok(final(self)@),
    {
        if self.pending.is_some() {
            self.deadline = Some(now as u128);
        }
    }

    /// Refreshes only the metadata that the document supplies, keeping the cached text. Returns
    /// whether a write in progress is to be aborted.
    pub fn refresh_with(
        &mut self,
        path: Option<NativePath>,
        encoding: String,
        has_bom: bool,
        line_ending: String,
        config: Config,
        now: u64,
        reachable: bool,
    ) -> (r: bool)
        requires
            state_ok(old(self)@),
        ensures
            r == (old(self)@.cached is Some && !config@.enable && old(self)@.worker),
            final(self)@ == refreshed(
                old(self)@,
                path_option(path),
                encoding@,
                has_bom,
                line_ending@,
                config@,
                now,
                reachable,
            ),
            state_ok(final(self)@),
    {
        let mut snapshot = match &self.cached {
            Some(cached) => cached.clone(),
            None => {
                return false;
            },
        };
        snapshot.path = path;
        snapshot.encoding = encoding;
        snapshot.has_bom = has_bom;
        snapshot.line_ending = line_ending;
        if !config.enable {
            let abort = self.disable();
            self.cached = Some(snapshot);
            return abort;
        }
        let abort = self.record_with(snapshot, config, 0, now, reachable);
        self.hasten(now);
        abort
    }

    /// Takes over the text that was saved, keeping the selections inside it.
    pub fn saved_text(&mut self, text: &ropey::Rope)
        requires
            state_ok(old(self)@),
        ensures
            final(self)@ == with_saved_text(old(self)@, rope_text(*text)),
            state_ok(final(self)@),
    {
        let limit = rope_len_chars(text);
        let cached = self.cached.take();
        if let Some(snapshot) = cached {
            let mut snapshot = snapshot;
            let ghost before = snapshot@;
            snapshot.text = rope_clone(text);
            let mut i: usize = 0;
            while i < snapshot.selections.len()
                invariant
                    i <= snapshot.selections@.len(),
                    snapshot.selections@.len() == before.selections.len(),
                    limit == rope_text(*text).len(),
                    snapshot@ == (SnapshotView {
                        text: rope_text(*text),
                        selections: snapshot.selections@,
                        ..before
                    }),
                    forall|k: int|
                        0 <= k < i ==> #[trigger] snapshot.selections@[k] == clamped(
                            before.selections[k],
                            limit as nat,
                        ),
                    forall|k: int|
                        i <= k < snapshot.selections@.len() ==> #[trigger] snapshot.selections@[k]
                            == before.selections[k],
                decreases snapshot.selections@.len() - i,
            {
                let (anchor, head) = snapshot.selections[i];
                snapshot.selections.set(i, (clamp(anchor, limit), clamp(head, limit)));
                i = i + 1;
            }
            assert(snapshot.selections@ =~= Seq::new(
                before.selections.len(),
                |k: int| clamped(before.selections[k], rope_text(*text).len()),
            ));
            self.cached = Some(snapshot);
        }
    }

    /// Takes a new configuration, by which a failed write is tried again. Returns whether a write
    /// in progress is to be aborted.
    pub fn reconfigure_with(&mut self, config: Config, now: u64, reachable: bool) -> (r: bool)
        requires
            state_ok(old(self)@),
        ensures
            r == (old(self)@.cached is Some && !config@.enable && old(self)@.worker),
            final(self)@ == reconfigured(old(self)@, config@, now, reachable),
            state_ok(final(self)@),
    {
        self.failed = false;
        let snapshot = match &self.cached {
            Some(cached) => cached.clone(),
            None => {
                return false;
            },
        };
        let abort = self.record_with(snapshot, config, 0, now, reachable);
        self.hasten(now);
        abort
    }

    /// Whether the clock can represent the deadline of a change at `now`, which is counted from
    /// the first pending change. Times are counted from `epoch`.
    fn deadline_reachable(&self, config: &Config, epoch: &std::time::Instant, now: u64) -> (r: bool)
        ensures
            deadline_answers(*epoch, first_change(self@, now), config.update_time, r),
    {
        deadline_reaches(epoch, self.counted_from(now), config.update_time)
    }

    /// Records a change, by the clock of this machine. Times are counted from `epoch`. Returns
    /// whether a write in progress is to be aborted.
    pub fn record(
        &mut self,
        snapshot: Snapshot,
        config: Config,
        changed_chars: usize,
        epoch: &std::time::Instant,
        now: u64,
    ) -> (r: bool)
        requires
            state_ok(old(self)@),
        ensures
            r == (!config@.enable && old(self)@.worker),
            exists|reachable: bool| #[trigger]
                deadline_answers(
                    *epoch,
                    first_change(old(self)@, now),
                    config.update_time,
                    reachable,
                ) && final(self)@ == recorded(
                    old(self)@,
                    snapshot@,
                    config@,
                    changed_chars,
                    now,
                    reachable,
                ),
            state_ok(final(self)@),
    {
        let reachable = self.deadline_reachable(&config, epoch, now);
        self.record_with(snapshot, config, changed_chars, now, reachable)
    }

    /// Refreshes only the metadata that the document supplies, by the clock of this machine.
    /// Times are counted from `epoch`. Returns whether a write in progress is to be aborted.
    pub fn refresh(
        &mut self,
        path: Option<NativePath>,
        encoding: String,
        has_bom: bool,
        line_ending: String,
        config: Config,
        epoch: &std::time::Instant,
        now: u64,
    ) -> (r: bool)
        requires
            state_ok(old(self)@),
        ensures
            r == (old(self)@.cached is Some && !config@.enable && old(self)@.worker),
            exists|reachable: bool| #[trigger]
                deadline_answers(
                    *epoch,
                    first_change(old(self)@, now),
                    config.update_time,
                    reachable,
                ) && final(self)@ == refreshed(
                    old(self)@,
                    path_option(path),
                    encoding@,
                    has_bom,
                    line_ending@,
                    config@,
                    now,
                    reachable,
                ),
            state_ok(final(self)@),
    {
        let reachable = self.deadline_reachable(&config, epoch, now);
        self.refresh_with(path, encoding, has_bom, line_ending, config, now, reachable)
    }

    /// Takes a new configuration, by the clock of this machine. Times are counted from `epoch`.
    /// Returns whether a write in progress is to be aborted.
    pub fn reconfigure(&mut self, config: Config, epoch: &std::time::Instant, now: u64) -> (r: bool)
        requires
            state_ok(old(self)@),
        ensures
            r == (old(self)@.cached is Some && !config@.enable && old(self)@.worker),
            exists|reachable: bool| #[trigger]
                deadline_answers(
                    *epoch,
                    first_change(old(self)@, now),
                    config.update_time,
                    reachable,
                ) && final(self)@ == reconfigured(old(self)@, config@, now, reachable),
            state_ok(final(self)@),
    {
        let reachable = self.deadline_reachable(&config, epoch, now);
        self.reconfigure_with(config, now, reachable)
    }

    /// Starts an explicit write, also where automatic recovery is disabled. Returns the
    /// configuration and the generation to write with. The generation fences off older writes,
    /// whether they are queued or in progress.
    pub fn preserve(&mut self, snapshot: &Snapshot, config: Config) -> (r: Result<
        (Config, u64),
        PreserveError,
    >)
        requires
            state_ok(old(self)@),
            old(self)@.generation < u64::MAX,
        ensures
            match r {
                Err(e) => e == PreserveError::Closed && old(self)@.closed && final(self)@ == old(
                    self,
                )@,
                Ok((config_used, generation)) => {
                    &&& !old(self)@.closed
                    &&& final(self)@ == preserving(old(self)@, snapshot@)
                    &&& config_used@ == ConfigView { enable: true, ..config@ }
                    &&& generation == final(self)@.generation
                },
            },
            state_ok(final(self)@),
    {
        if self.closed {
            return Err(PreserveError::Closed);
        }
        let mut config = config;
        config.enable = true;
        self.clear_pending();
        self.notice = None;
        self.cached = Some(snapshot.clone());
        self.generation = self.generation + 1;
        self.ignore_through = self.generation;
        self.attempted = true;
        self.failed = true;
        Ok((config, self.generation))
    }

    /// Takes the outcome of an explicit write that did not fail: the path, or none where the text
    /// is over the size limit.
    pub fn preserved(
        &mut self,
        unnamed: bool,
        size_threshold: usize,
        path: Option<NativePath>,
    ) -> (r: Result<NativePath, PreserveError>)
        requires
            state_ok(old(self)@),
        ensures
            match r {
                Ok(published) => {
                    &&& path_option(path) == Some(published@)
                    &&& final(self)@ == preserved(old(self)@, unnamed, published@)
                },
                Err(e) => {
                    &&& path is None
                    &&& e == PreserveError::Oversized(size_threshold)
                    &&& final(self)@ == old(self)@
                },
            },
            state_ok(final(self)@),
    {
        match path {
            None => Err(PreserveError::Oversized(size_threshold)),
            Some(path) => {
                self.failed = false;
                self.unnamed_reported = self.unnamed_reported || unnamed;
                self.oversized = false;
                self.published_path = Some(path.clone());
                Ok(path)
            },
        }
    }

    /// Hands the pending snapshot to a writer.
    fn start(&mut self) -> (r: Step)
        requires
            state_ok(old(self)@),
            !old(self)@.closed,
            old(self)@.pending is Some,
            old(self)@.generation < u64::MAX,
        ensures
            (final(self)@, r@) == started(old(self)@),
            state_ok(final(self)@),
    {
        let pending = self.pending.take();
        match pending {
            Some((snapshot, config)) => {
                self.pending = None;
                self.changed_chars = 0;
                self.first_pending = None;
                self.deadline = None;
                self.sleep = None;
                self.attempted = true;
                self.generation = self.generation + 1;
                self.worker_generation = self.generation;
                self.worker_unnamed = snapshot.path.is_none();
                self.worker = true;
                Step::StartWorker(snapshot, config, self.generation)
            },
            None => unreached(),
        }
    }

    fn turn(&mut self, now: u64) -> (r: Step)
        requires
            state_ok(old(self)@),
            !old(self)@.closed,
            old(self)@.generation < u64::MAX,
        ensures
            (final(self)@, r@) == turned(old(self)@, now),
            state_ok(final(self)@),
    {
        if self.worker {
            return Step::PollWorker;
        }
        match self.deadline {
            None => Step::Idle,
            Some(deadline) => if deadline > now as u128 {
                self.sleep = Some(deadline);
                Step::PollSleep(deadline)
            } else {
                self.start()
            },
        }
    }

    /// What is to be done now.
    pub fn poll(&mut self, now: u64) -> (r: Step)
        requires
            state_ok(old(self)@),
            old(self)@.generation < u64::MAX,
        ensures
            (final(self)@, r@) == polled(old(self)@, now),
            state_ok(final(self)@),
    {
        if self.closed {
            return Step::Idle;
        }
        if self.notice.is_some() {
            let notice = self.notice.take();
            return Step::Report(notice);
        }
        self.turn(now)
    }

    /// Takes the end of the write in progress.
    pub fn worker_done(&mut self, outcome: Outcome, now: u64) -> (r: Step)
        requires
            state_ok(old(self)@),
            old(self)@.worker,
            old(self)@.generation < u64::MAX,
        ensures
            (final(self)@, r@) == worker_ended(old(self)@, outcome@, now),
            state_ok(final(self)@),
    {
        self.worker = false;
        if self.worker_generation <= self.ignore_through {
            return self.turn(now);
        }
        match outcome {
            Outcome::Failed => {
                if self.changed_chars == 0 {
                    self.clear_pending();
                    self.failed = true;
                }
                Step::ReportFailure
            },
            Outcome::Written(None) => Step::Report(None),
            Outcome::Written(Some(path)) => {
                self.published_path = Some(path.clone());
                if self.worker_unnamed && !self.unnamed_reported {
                    self.unnamed_reported = true;
                    Step::Report(Some(Notice::RecoveryFile(path)))
                } else {
                    Step::Report(None)
                }
            },
        }
    }

    /// The timer that a poll asked for has run out.
    pub fn elapsed(&mut self) -> (r: Step)
        requires
            state_ok(old(self)@),
            old(self)@.sleep is Some,
            !old(self)@.closed,
            old(self)@.generation < u64::MAX,
        ensures
            (final(self)@, r@) == started(old(self)@),
            state_ok(final(self)@),
    {
        self.start()
    }

    /// Closes the state. Returns whether the backups of recovered files are retained, which the
    /// close of the swap is told. A write in progress is aborted; the close of the swap fences it
    /// off and removes whatever it published.
    pub fn close(&mut self, keep_recovered: bool) -> (r: bool)
        requires
            state_ok(old(self)@),
        ensures
            final(self)@ == shut_down(old(self)@),
            r == retention(old(self)@, keep_recovered),
            state_ok(final(self)@),
    {
        self.worker = false;
        self.disable();
        self.closed = true;
        keep_recovered || !self.recovered_written
    }

    /// The swap was closed successfully: nothing is published any more.
    pub fn released(&mut self)
        requires
            state_ok(old(self)@),
        ensures
            final(self)@ == (StateView { published_path: None, ..old(self)@ }),
            state_ok(final(self)@),
    {
        self.published_path = None;
    }
}

} // verus!
