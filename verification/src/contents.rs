//! What the files hold: the bytes of recovered originals and of the published snapshot.

use vstd::prelude::*;
use vstd::utf8::decode_utf8;

use crate::files::{source_ok, SourceView};
use crate::format::{
    behind_header, described, file_image, file_reads, header_bytes, header_length_of, header_of,
    law_written_file_reads_back, metadata_of, HeaderView, RecoveryMetadata,
};
use crate::laws::{
    copies_kept, copy_kept, fresh, law_close_outcome, law_write_outcome, lemma_copies_kept_on,
    lemma_copies_step, lemma_run_ok, possible, run, sources_after, succeeded, write_started,
};
use crate::model::{
    action_of, admitted, enter_archive, enter_remove, enter_retire, event_fault, lemma_archive_ok,
    lemma_step_ok, lemma_without_uncopied, progress_ok, released_paths, step_of, swap_ok,
    without_uncopied, work_ok, SwapView,
};
use crate::snapshot::snapshot_fault;
use crate::swap::{closing, holds_lock, shut, source_holds};
use crate::work::{
    ActionView, ArchiveStep, EventView, PlanView, ProgressView, PublishStep, Stage, TroubleView,
    WorkView, WritePlanView,
};

verus! {

/// The bytes of the file behind each lock, and of the temporary file. Nobody else changes a file
/// that is locked.
#[verifier::ext_equal]
pub struct Contents {
    pub held: Map<u64, Seq<u8>>,
    pub temporary: Seq<u8>,
}

/// What an action that went well changes: a copy has the bytes of the file that it was made of, a
/// staged file has its contents, and a lock holds the temporary file.
pub open spec fn contents_after(c: Contents, action: ActionView, event: EventView) -> Contents {
    match (action, event) {
        (ActionView::CopyOriginal { lock, .. }, EventView::Copied(Ok(_))) => Contents {
            temporary: c.held[lock],
            ..c
        },
        (ActionView::Stage { contents, .. }, EventView::Staged(Ok(_))) => Contents {
            temporary: contents,
            ..c
        },
        (ActionView::LockTemporary, EventView::Locked(Ok(lock))) => Contents {
            held: c.held.insert(lock, c.temporary),
            ..c
        },
        _ => c,
    }
}

/// The bytes of a recovered file: those of the original while it is owned, then those of its copy.
pub open spec fn bytes_of(c: Contents, source: SourceView) -> Seq<u8> {
    match source.original {
        Some(original) => c.held[original.lock],
        None => c.held[source.archive->0.lock],
    }
}

/// A copy has the bytes of its original.
pub open spec fn copy_agrees(c: Contents, source: SourceView) -> bool {
    source.original matches Some(original) ==> (source.archive matches Some(archive)
        ==> c.held[archive.lock] == c.held[original.lock])
}

pub open spec fn copies_agree(c: Contents, recovered: Seq<SourceView>) -> bool {
    forall|i: int| 0 <= i < recovered.len() ==> copy_agrees(c, #[trigger] recovered[i])
}

/// The file that a write is to publish.
pub open spec fn image_of(plan: PlanView) -> Seq<u8> {
    match plan {
        PlanView::Write(plan) => file_image(plan.header, plan.snapshot.text),
        PlanView::Close => Seq::empty(),
    }
}

/// What the files hold while work is in progress.
pub open spec fn work_contents(s: SwapView, w: WorkView, c: Contents) -> bool {
    match w.stage {
        Stage::Archive(i, step) => {
            let original = s.recovered[i as int].original;
            match step {
                ArchiveStep::Flush | ArchiveStep::Recheck | ArchiveStep::Lock => c.temporary
                    == c.held[original->0.lock],
                ArchiveStep::Identify(lock) => c.held[lock] == c.held[original->0.lock],
                ArchiveStep::Persist(lock) => c.held[lock] == c.held[original->0.lock],
                _ => true,
            }
        },
        Stage::Publish(_, step) => match step {
            PublishStep::Flush | PublishStep::Lock => c.temporary == image_of(w.plan),
            PublishStep::Identify(lock) => c.held[lock] == image_of(w.plan),
            PublishStep::Previous(lock) => c.held[lock] == image_of(w.plan),
            PublishStep::Persist(lock) => c.held[lock] == image_of(w.plan),
            _ => true,
        },
        Stage::Settle => c.held[s.files.last().lock] == image_of(w.plan),
        Stage::Remove(_, _) => w.plan is Write ==> c.held[s.files.last().lock] == image_of(w.plan),
        Stage::Retire(_) => true,
    }
}

/// The same, together with the copies; the newest file of a write that succeeded holds `image`.
pub open spec fn contents_ok(s: SwapView, p: ProgressView, c: Contents, image: Seq<u8>) -> bool {
    &&& copies_agree(c, s.recovered)
    &&& match p {
        ProgressView::Continue(w) => work_contents(s, w, c) && (w.plan is Write ==> image_of(w.plan)
            == image),
        ProgressView::Written(_) => s.files.len() > 0 && c.held[s.files.last().lock] == image,
        _ => true,
    }
}

/// A new lock changes nothing of what is held.
proof fn lemma_fresh_lock(s: SwapView, c: Contents, lock: u64)
    requires
        !holds_lock(s, lock),
    ensures
        ({
            let next = Contents { held: c.held.insert(lock, c.temporary), ..c };
            &&& forall|i: int|
                0 <= i < s.files.len() ==> next.held[(#[trigger] s.files[i]).lock]
                    == c.held[s.files[i].lock]
            &&& forall|i: int|
                #![trigger s.recovered[i]]
                0 <= i < s.recovered.len() ==> {
                    &&& s.recovered[i].original matches Some(f) ==> next.held[f.lock]
                        == c.held[f.lock]
                    &&& s.recovered[i].archive matches Some(f) ==> next.held[f.lock]
                        == c.held[f.lock]
                }
        }),
{
    assert forall|i: int| #![trigger s.recovered[i]] 0 <= i < s.recovered.len() implies {
        &&& s.recovered[i].original matches Some(f) ==> f.lock != lock
        &&& s.recovered[i].archive matches Some(f) ==> f.lock != lock
    } by {
        assert(!source_holds(s.recovered[i], lock));
    }
}

/// The copies agree still, and every recovered file keeps its bytes, where only these change.
pub open spec fn sources_kept(
    before: SwapView,
    c: Contents,
    after: SwapView,
    next: Contents,
) -> bool {
    &&& after.recovered.len() <= before.recovered.len()
    &&& forall|i: int|
        0 <= i < after.recovered.len() ==> bytes_of(next, #[trigger] after.recovered[i])
            == bytes_of(c, before.recovered[i])
}

proof fn lemma_retire_contents(s: SwapView, c: Contents, image: Seq<u8>)
    requires
        copies_agree(c, s.recovered),
    ensures
        contents_ok(enter_retire(s).0, enter_retire(s).1, c, image),
        sources_kept(s, c, enter_retire(s).0, c),
{
    lemma_without_uncopied(s.recovered);
    let kept = without_uncopied(s.recovered);
    assert forall|i: int| 0 <= i < kept.len() implies #[trigger] kept[i] == s.recovered[i] by {}
}

proof fn lemma_remove_contents(
    s: SwapView,
    plan: PlanView,
    end: int,
    troubles: Seq<TroubleView>,
    c: Contents,
    image: Seq<u8>,
)
    requires
        copies_agree(c, s.recovered),
        plan is Write ==> s.files.len() > 0 && c.held[s.files.last().lock] == image_of(plan)
            && image_of(plan) == image,
    ensures
        contents_ok(
            enter_remove(s, plan, end, troubles).0,
            enter_remove(s, plan, end, troubles).1,
            c,
            image,
        ),
        sources_kept(s, c, enter_remove(s, plan, end, troubles).0, c),
{
    if end <= 0 && troubles.len() == 0 && plan is Close {
        lemma_retire_contents(s, c, image);
    }
}

proof fn lemma_archive_contents(s: SwapView, plan: PlanView, i: int, c: Contents, image: Seq<u8>)
    requires
        copies_agree(c, s.recovered),
        plan is Write ==> image_of(plan) == image,
    ensures
        contents_ok(enter_archive(s, plan, i).0, enter_archive(s, plan, i).1, c, image),
        sources_kept(s, c, enter_archive(s, plan, i).0, c),
{
    if i >= s.recovered.len() && plan is Close {
        lemma_remove_contents(s, plan, s.files.len() as int, Seq::empty(), c, image);
    }
}

proof fn lemma_copying_contents(
    s: SwapView,
    w: WorkView,
    event: EventView,
    c: Contents,
    image: Seq<u8>,
)
    requires
        work_ok(s, w),
        w.stage is Archive,
        admitted(action_of(s, w), event),
        fresh(s, event),
        contents_ok(s, ProgressView::Continue(w), c, image),
    ensures
        ({
            let next = step_of(s, w, event);
            let after = contents_after(c, action_of(s, w), event);
            &&& contents_ok(next.0, next.1, after, image)
            &&& sources_kept(s, c, next.0, after)
        }),
{
    let after = contents_after(c, action_of(s, w), event);
    match w.stage {
        Stage::Archive(i, step) => {
            let i = i as int;
            let source = s.recovered[i];
            assert(source_ok(source));
            match step {
                ArchiveStep::Verify => {
                    lemma_archive_contents(s, w.plan, i + 1, c, image);
                },
                ArchiveStep::Lock => {
                    if let EventView::Locked(Ok(lock)) = event {
                        lemma_fresh_lock(s, c, lock);
                    }
                },
                ArchiveStep::Sync => {
                    let kept = SwapView {
                        recovered: s.recovered.update(i, SourceView { original: None, ..source }),
                        ..s
                    };
                    assert(copy_agrees(c, source));
                    assert(copies_agree(c, kept.recovered));
                    lemma_archive_contents(kept, w.plan, i + 1, c, image);
                },
                _ => {},
            }
        },
        _ => {},
    }
}

proof fn lemma_publishing_contents(
    s: SwapView,
    w: WorkView,
    event: EventView,
    c: Contents,
    image: Seq<u8>,
)
    requires
        work_ok(s, w),
        w.stage is Publish || w.stage is Settle,
        admitted(action_of(s, w), event),
        fresh(s, event),
        contents_ok(s, ProgressView::Continue(w), c, image),
    ensures
        ({
            let next = step_of(s, w, event);
            let after = contents_after(c, action_of(s, w), event);
            &&& contents_ok(next.0, next.1, after, image)
            &&& sources_kept(s, c, next.0, after)
        }),
{
    match w.stage {
        Stage::Publish(k, step) => {
            match step {
                PublishStep::Lock => {
                    if let EventView::Locked(Ok(lock)) = event {
                        lemma_fresh_lock(s, c, lock);
                    }
                },
                _ => {},
            }
        },
        Stage::Settle => {
            lemma_remove_contents(s, w.plan, s.files.len() - 1, Seq::empty(), c, image);
        },
        _ => {},
    }
}

proof fn lemma_removing_contents(
    s: SwapView,
    w: WorkView,
    event: EventView,
    c: Contents,
    image: Seq<u8>,
)
    requires
        work_ok(s, w),
        w.stage is Remove || w.stage is Retire,
        admitted(action_of(s, w), event),
        contents_ok(s, ProgressView::Continue(w), c, image),
    ensures
        ({
            let next = step_of(s, w, event);
            let after = contents_after(c, action_of(s, w), event);
            &&& contents_ok(next.0, next.1, after, image)
            &&& sources_kept(s, c, next.0, after)
        }),
{
    assert(contents_after(c, action_of(s, w), event) == c);
    match w.stage {
        Stage::Remove(i, step) => {
            let i = i as int;
            match event_fault(event) {
                Some(fault) => {
                    lemma_remove_contents(
                        s,
                        w.plan,
                        i - 1,
                        w.troubles.push(TroubleView { path: s.files[i - 1].path, fault }),
                        c,
                        image,
                    );
                },
                None => {
                    if step is Sync {
                        let kept = SwapView { files: s.files.remove(i - 1), ..s };
                        if w.plan is Write {
                            assert(kept.files.last() == s.files.last());
                        }
                        lemma_remove_contents(kept, w.plan, i - 1, w.troubles, c, image);
                    }
                },
            }
        },
        Stage::Retire(step) => {
            if event_fault(event) is None && step is Sync {
                let kept = SwapView { recovered: s.recovered.drop_last(), ..s };
                assert forall|i: int| 0 <= i < kept.recovered.len() implies (
                #[trigger] kept.recovered[i]) == s.recovered[i] by {}
                lemma_retire_contents(kept, c, image);
            }
        },
        _ => {},
    }
}

/// Law: no step changes the bytes of a recovered file, as long as it is owned: its copy holds,
/// byte for byte, what the original held.
pub proof fn law_recovered_bytes_survive_every_step(
    s: SwapView,
    w: WorkView,
    event: EventView,
    c: Contents,
    image: Seq<u8>,
)
    requires
        work_ok(s, w),
        admitted(action_of(s, w), event),
        fresh(s, event),
        contents_ok(s, ProgressView::Continue(w), c, image),
    ensures
        ({
            let next = step_of(s, w, event);
            let after = contents_after(c, action_of(s, w), event);
            &&& contents_ok(next.0, next.1, after, image)
            &&& sources_kept(s, c, next.0, after)
        }),
{
    match w.stage {
        Stage::Archive(_, _) => {
            lemma_copying_contents(s, w, event, c, image);
        },
        Stage::Publish(_, _) | Stage::Settle => {
            lemma_publishing_contents(s, w, event, c, image);
        },
        Stage::Remove(_, _) | Stage::Retire(_) => {
            lemma_removing_contents(s, w, event, c, image);
        },
    }
}

/// What the files hold after some events.
pub open spec fn run_contents(
    s: SwapView,
    p: ProgressView,
    events: Seq<EventView>,
    c: Contents,
) -> Contents
    decreases events.len(),
{
    if events.len() == 0 {
        c
    } else {
        let before = run(s, p, events.drop_last());
        contents_after(
            run_contents(s, p, events.drop_last(), c),
            action_of(before.0, before.1->Continue_0),
            events.last(),
        )
    }
}

/// Every lock that is taken along the way is a new one.
pub open spec fn always_fresh(s: SwapView, p: ProgressView, events: Seq<EventView>) -> bool
    decreases events.len(),
{
    events.len() > 0 ==> {
        &&& always_fresh(s, p, events.drop_last())
        &&& fresh(run(s, p, events.drop_last()).0, events.last())
    }
}

proof fn lemma_run_contents(
    s: SwapView,
    p: ProgressView,
    events: Seq<EventView>,
    c: Contents,
    image: Seq<u8>,
)
    requires
        progress_ok(s, p),
        possible(s, p, events),
        always_fresh(s, p, events),
        contents_ok(s, p, c, image),
    ensures
        ({
            let ended = run(s, p, events);
            let after = run_contents(s, p, events, c);
            &&& progress_ok(ended.0, ended.1)
            &&& contents_ok(ended.0, ended.1, after, image)
            &&& sources_kept(s, c, ended.0, after)
        }),
    decreases events.len(),
{
    if events.len() > 0 {
        let front = events.drop_last();
        lemma_run_contents(s, p, front, c, image);
        let (now, at) = run(s, p, front);
        let held = run_contents(s, p, front, c);
        let w = at->Continue_0;
        lemma_step_ok(now, w, events.last());
        law_recovered_bytes_survive_every_step(now, w, events.last(), held, image);
        let ended = run(s, p, events).0;
        let after = run_contents(s, p, events, c);
        assert forall|i: int| 0 <= i < ended.recovered.len() implies bytes_of(
            after,
            #[trigger] ended.recovered[i],
        ) == bytes_of(c, s.recovered[i]) by {
            assert(bytes_of(held, now.recovered[i]) == bytes_of(c, s.recovered[i]));
        }
    }
}

/// Law: a write that succeeds has published exactly the file of its snapshot, and at every moment
/// of a write, whether it succeeds or fails, every recovered file still has the bytes that it had
/// at the start.
pub proof fn law_write_keeps_recovered_bytes_and_publishes_the_snapshot(
    start: SwapView,
    plan: WritePlanView,
    events: Seq<EventView>,
    c: Contents,
)
    requires
        write_started(start, plan),
        copies_agree(c, start.recovered),
        ({
            let begun = enter_archive(start, PlanView::Write(plan), 0);
            &&& possible(begun.0, begun.1, events)
            &&& always_fresh(begun.0, begun.1, events)
        }),
    ensures
        ({
            let begun = enter_archive(start, PlanView::Write(plan), 0);
            let ended = run(begun.0, begun.1, events);
            let after = run_contents(begun.0, begun.1, events, c);
            &&& ended.0.recovered.len() == start.recovered.len()
            &&& forall|i: int|
                0 <= i < start.recovered.len() ==> bytes_of(after, #[trigger] ended.0.recovered[i])
                    == bytes_of(c, start.recovered[i])
            &&& ended.1 is Written ==> ended.0.files.len() > 0
                && after.held[ended.0.files.last().lock] == file_image(
                plan.header,
                plan.snapshot.text,
            )
        }),
{
    let begun = enter_archive(start, PlanView::Write(plan), 0);
    let image = file_image(plan.header, plan.snapshot.text);
    lemma_archive_ok(start, PlanView::Write(plan), 0);
    lemma_archive_contents(start, PlanView::Write(plan), 0, c, image);
    lemma_run_contents(begun.0, begun.1, events, c, image);
    lemma_write_keeps_sources(start, plan, events);
}

/// A write never lets go of a recovered file.
proof fn lemma_write_keeps_sources(start: SwapView, plan: WritePlanView, events: Seq<EventView>)
    requires
        write_started(start, plan),
        ({
            let begun = enter_archive(start, PlanView::Write(plan), 0);
            possible(begun.0, begun.1, events)
        }),
    ensures
        ({
            let begun = enter_archive(start, PlanView::Write(plan), 0);
            let ended = run(begun.0, begun.1, events);
            &&& ended.0.recovered.len() == start.recovered.len()
            &&& ended.1 matches ProgressView::Continue(w) ==> w.plan is Write
        }),
    decreases events.len(),
{
    let begun = enter_archive(start, PlanView::Write(plan), 0);
    lemma_archive_ok(start, PlanView::Write(plan), 0);
    if events.len() > 0 {
        let front = events.drop_last();
        lemma_write_keeps_sources(start, plan, front);
        lemma_run_ok(begun.0, begun.1, front);
    }
}

/// Law: a read gives back what a write wrote. The file that a write has published holds its
/// header, and where `parse` gets back from that header what was put into it, the file is read and
/// gives the snapshot that was to be written, with the facts of the header.
pub proof fn law_written_snapshot_reads_back(
    start: SwapView,
    plan: WritePlanView,
    events: Seq<EventView>,
    c: Contents,
    facts: RecoveryMetadata,
    parse: spec_fn(Seq<u8>) -> Option<HeaderView>,
)
    requires
        write_started(start, plan),
        copies_agree(c, start.recovered),
        snapshot_fault(plan.snapshot) is None,
        0 < plan.header.len(),
        file_image(plan.header, plan.snapshot.text).len() <= u64::MAX,
        parse(plan.header) == Some(header_of(plan.snapshot, facts)),
        ({
            let begun = enter_archive(start, PlanView::Write(plan), 0);
            &&& possible(begun.0, begun.1, events)
            &&& always_fresh(begun.0, begun.1, events)
        }),
    ensures
        ({
            let begun = enter_archive(start, PlanView::Write(plan), 0);
            let ended = run(begun.0, begun.1, events);
            let after = run_contents(begun.0, begun.1, events, c);
            ended.1 matches ProgressView::Written(path) ==> {
                let file = after.held[ended.0.files.last().lock];
                let length = header_length_of(file)->Ok_0 as int;
                let header = parse(header_bytes(file, length))->0;
                &&& ended.0.files.last().path == path
                &&& file_reads(parse, file)
                &&& described(header, decode_utf8(behind_header(file, length))) == plan.snapshot
                &&& metadata_of(header) == facts
            }
        }),
{
    law_write_keeps_recovered_bytes_and_publishes_the_snapshot(start, plan, events, c);
    law_write_outcome(start, plan, events);
    law_written_file_reads_back(plan.snapshot, facts, plan.header);
}

/// Every recovered file has a copy that holds the bytes of the file.
pub open spec fn copies_hold(
    c: Contents,
    recovered: Seq<SourceView>,
    copies: Seq<SourceView>,
    next: Contents,
) -> bool {
    &&& copies_kept(recovered, copies)
    &&& forall|i: int|
        0 <= i < recovered.len() ==> (#[trigger] copies[i]).archive is Some
            && next.held[copies[i].archive->0.lock] == bytes_of(c, recovered[i])
}

/// What a close that retains knows of the copies: those that it reports hold the recovered bytes.
pub open spec fn retaining_course(
    start: SwapView,
    c: Contents,
    s: SwapView,
    p: ProgressView,
    next: Contents,
) -> bool {
    match p {
        ProgressView::Closed(paths) => exists|copies: Seq<SourceView>|
            {
                &&& #[trigger] copies_hold(c, start.recovered, copies, next)
                &&& paths == start.retained_archives + released_paths(copies)
            },
        _ => {
            &&& s.retained_archives == start.retained_archives
            &&& copies_kept(start.recovered, s.recovered)
        },
    }
}

/// The copies that the last step of a close lets go of hold the recovered bytes.
proof fn lemma_released_bytes(s: SwapView, w: WorkView, event: EventView, c: Contents)
    requires
        work_ok(s, w),
        admitted(action_of(s, w), event),
        s.retain_recovered,
        copies_agree(c, s.recovered),
        step_of(s, w, event).1 is Closed,
    ensures
        copies_hold(
            c,
            s.recovered,
            sources_after(s, w, event),
            contents_after(c, action_of(s, w), event),
        ),
{
    lemma_copies_step(s, w, event);
    let kept = sources_after(s, w, event);
    assert(contents_after(c, action_of(s, w), event) == c);
    assert forall|i: int| 0 <= i < s.recovered.len() implies (#[trigger] kept[i]).archive is Some
        && c.held[kept[i].archive->0.lock] == bytes_of(c, s.recovered[i]) by {
        assert(copy_agrees(c, s.recovered[i]));
        assert(copy_kept(s.recovered[i], kept[i]));
    }
}

proof fn lemma_retaining_start(start: SwapView, c: Contents)
    requires
        swap_ok(start),
        start.retain_recovered,
    ensures
        ({
            let begun = enter_archive(start, PlanView::Close, 0);
            retaining_course(start, c, begun.0, begun.1, c)
        }),
{
    if start.recovered.len() == 0 {
        assert(copies_hold(c, start.recovered, start.recovered, c));
    }
}

/// Law: the paths that a close reports which retains the recovered files are those that were
/// retained before, followed by those of the copies, the last one first. Each copy holds the bytes
/// of its recovered file. One that was made before lies where it was, and a new one lies beside
/// the original, under the name of a backup.
pub proof fn law_retained_paths_hold_the_recovered_bytes(
    s: SwapView,
    retain: bool,
    events: Seq<EventView>,
    c: Contents,
)
    requires
        swap_ok(s),
        shut(s, retain).retain_recovered,
        copies_agree(c, s.recovered),
        ({
            let begun = closing(s, retain);
            &&& possible(begun.0, begun.1, events)
            &&& always_fresh(begun.0, begun.1, events)
        }),
    ensures
        ({
            let begun = closing(s, retain);
            let ended = run(begun.0, begun.1, events);
            let after = run_contents(begun.0, begun.1, events, c);
            retaining_course(shut(s, retain), c, ended.0, ended.1, after)
        }),
    decreases events.len(),
{
    let start = shut(s, retain);
    let begun = closing(s, retain);
    lemma_archive_ok(start, PlanView::Close, 0);
    lemma_archive_contents(start, PlanView::Close, 0, c, Seq::empty());
    lemma_retaining_start(start, c);
    if events.len() > 0 {
        let front = events.drop_last();
        law_retained_paths_hold_the_recovered_bytes(s, retain, front, c);
        law_close_outcome(s, retain, front);
        lemma_run_contents(begun.0, begun.1, front, c, Seq::empty());
        let (now, at) = run(begun.0, begun.1, front);
        let held = run_contents(begun.0, begun.1, front, c);
        let w = at->Continue_0;
        lemma_copies_step(now, w, events.last());
        let kept = sources_after(now, w, events.last());
        lemma_copies_kept_on(start.recovered, now.recovered, kept);
        let ended = run(begun.0, begun.1, events);
        let after = run_contents(begun.0, begun.1, events, c);
        if ended.1 is Closed {
            lemma_released_bytes(now, w, events.last(), held);
            assert forall|i: int| 0 <= i < start.recovered.len() implies (
            #[trigger] kept[i]).archive is Some && after.held[kept[i].archive->0.lock] == bytes_of(
                c,
                start.recovered[i],
            ) by {
                assert(bytes_of(held, now.recovered[i]) == bytes_of(c, start.recovered[i]));
            }
            assert(copies_hold(c, start.recovered, kept, after));
        }
    }
}

/// Law: of files that all have a copy, the released paths are those of the copies, each once, the
/// last one first.
pub proof fn law_released_paths_are_those_of_the_copies(copies: Seq<SourceView>)
    requires
        forall|i: int| 0 <= i < copies.len() ==> (#[trigger] copies[i]).archive is Some,
    ensures
        released_paths(copies).len() == copies.len(),
        forall|i: int|
            0 <= i < copies.len() ==> released_paths(copies)[copies.len() - 1 - i] == (
            #[trigger] copies[i]).archive->0.path,
    decreases copies.len(),
{
    if copies.len() > 0 {
        let rest = copies.drop_last();
        assert forall|i: int| 0 <= i < rest.len() implies (#[trigger] rest[i]).archive is Some by {
            assert(rest[i] == copies[i]);
        }
        law_released_paths_are_those_of_the_copies(rest);
        assert forall|i: int| 0 <= i < copies.len() implies released_paths(copies)[copies.len() - 1
            - i] == (#[trigger] copies[i]).archive->0.path by {
            if i < rest.len() {
                assert(rest[i] == copies[i]);
            }
        }
    }
}

} // verus!
