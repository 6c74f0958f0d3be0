//! The files that one buffer owns, and how they are written and removed.

use vstd::prelude::*;

use crate::bytes::copy_bytes;
use crate::claim::{Recovery, RecoveryView};
use crate::config::{clock_answers, clock_reaches, config_fault, Config, ConfigError, ConfigView};
use crate::directories::{
    directories_fault, directories_of, directories_with, prepare_directory, DirectoriesError,
};
use crate::files::{
    check, owned_views, placed, source_ok, source_views, Fault, OwnedFile, OwnedView,
    RecoveredSource, SourceView,
};
use crate::format::{encode_file, header_fits, MAX_HEADER};
use crate::model::{
    action_of, admitted, archive_action, archive_fits, archive_paths, archive_step, backups_of,
    check_of, directory_of_file, enter_archive, enter_publish, enter_remove, enter_retire,
    event_fault, failed, faulted, identity_fault, lemma_archive_ok, lemma_remove_ok, lemma_step_ok,
    next_removal, progress_ok, publish_action, publish_faulted, publish_fits, publish_step,
    published, released_paths, removal_of, remove_step, retire_step, settle_step, step_of, swap_ok,
    target_path, temporary_file, without_uncopied, work_ok, SwapView,
};
use crate::names::{
    archive_name, archive_path, is_archive, published_name, staging_prefix, temporary_name,
    ARCHIVE_SUFFIX, TEMP_PREFIX,
};
use crate::paths::{
    clone_option, clone_paths, lists_match, options_match, path_option, path_views, same_option,
    same_path, same_paths, NativePath, SEPARATOR,
};
use crate::snapshot::{
    over_threshold, snapshot_fault, text_size, Snapshot, SnapshotError, SnapshotView,
};
use crate::work::{
    trouble_views, Action, ArchiveStep, Cause, Copied, Event, EventView, Failure, Plan, PlanView,
    Progress, ProgressView, PublishStep, RemoveStep, Stage, Trouble, TroubleView, Work, WorkView,
    WritePlan, WritePlanView,
};

verus! {

/// Owns the files that were published for one buffer or explicitly claimed for recovery. Dropping
/// it leaves its files in place for recovery. Every write, migration and close of one swap is
/// serialized by its owner.
#[derive(Debug)]
pub struct Swap {
    pub files: Vec<OwnedFile>,
    pub recovered: Vec<RecoveredSource>,
    pub retained_archives: Vec<NativePath>,
    pub source_path: Option<NativePath>,
    pub source_cwd: NativePath,
    pub directories: Vec<NativePath>,
    pub suffix: String,
    pub last_generation: Option<u64>,
    pub closed: bool,
    pub retain_recovered: bool,
}

impl View for Swap {
    type V = SwapView;

    open spec fn view(&self) -> SwapView {
        SwapView {
            files: owned_views(self.files@),
            recovered: source_views(self.recovered@),
            retained_archives: path_views(self.retained_archives@),
            source_path: path_option(self.source_path),
            source_cwd: self.source_cwd@,
            directories: path_views(self.directories@),
            suffix: self.suffix@,
            last_generation: self.last_generation,
            closed: self.closed,
            retain_recovered: self.retain_recovered,
        }
    }
}

/// A swap that owns nothing.
pub open spec fn empty_swap() -> SwapView {
    SwapView {
        files: Seq::empty(),
        recovered: Seq::empty(),
        retained_archives: Seq::empty(),
        source_path: None,
        source_cwd: Seq::empty(),
        directories: Seq::empty(),
        suffix: ""@,
        last_generation: None,
        closed: false,
        retain_recovered: false,
    }
}

/// The path of the newest file.
pub open spec fn current_path(s: SwapView) -> Option<Seq<u8>> {
    if s.files.len() > 0 {
        Some(s.files.last().path)
    } else {
        None
    }
}

impl Default for Swap {
    fn default() -> (r: Swap)
        ensures
            r@ == empty_swap(),
            swap_ok(r@),
    {
        let r = Swap {
            files: Vec::new(),
            recovered: Vec::new(),
            retained_archives: Vec::new(),
            source_path: None,
            source_cwd: NativePath::new(Vec::new()),
            directories: Vec::new(),
            suffix: "".to_owned(),
            last_generation: None,
            closed: false,
            retain_recovered: false,
        };
        assert(r@ =~= empty_swap());
        r
    }
}

/// The directory of a file that lies in one.
fn directory_of_owned(file: &OwnedFile) -> (r: NativePath)
    requires
        placed(file@),
    ensures
        r@ == directory_of_file(file@),
{
    match file.path.parent() {
        Some(parent) => parent,
        None => unreached(),
    }
}

fn check_owned(file: &OwnedFile) -> (r: Action)
    ensures
        r@ == check_of(file@),
{
    Action::Check { path: file.path.clone(), lock: file.lock }
}

/// What a step of a removal asks for.
fn remove_action(file: &OwnedFile, step: RemoveStep) -> (r: Action)
    requires
        placed(file@),
    ensures
        r@ == removal_of(file@, step),
{
    match step {
        RemoveStep::Inspect => Action::Inspect(file.path.clone()),
        RemoveStep::Check => check_owned(file),
        RemoveStep::Unlink => Action::Unlink(file.path.clone()),
        RemoveStep::Sync => Action::SyncDirectory(directory_of_owned(file)),
    }
}

/// The fault that an event reports by itself, or the event.
fn examine(event: Event) -> (r: Result<Event, Fault>)
    ensures
        match r {
            Ok(e) => e == event && event_fault(event@) is None,
            Err(fault) => event_fault(event@) == Some(fault@),
        },
{
    match event {
        Event::Checked(seen) => match check(seen) {
            Ok(()) => Ok(Event::Checked(Ok(true))),
            Err(fault) => Err(fault),
        },
        Event::Inspected(Err(detail)) => Err(Fault::System(detail)),
        Event::Copied(Ok(copy)) => if copy.length == copy.copied {
            Ok(Event::Copied(Ok(copy)))
        } else {
            Err(Fault::LengthChanged)
        },
        Event::Copied(Err(detail)) => Err(Fault::System(detail)),
        Event::Staged(Err(detail)) => Err(Fault::System(detail)),
        Event::Locked(Err(detail)) => Err(Fault::Lock(detail)),
        Event::Done(Err(detail)) => Err(Fault::System(detail)),
        other => Ok(other),
    }
}

/// The verdict on a temporary file.
fn identify(event: Event) -> (r: Result<Event, Fault>)
    requires
        event is Checked,
    ensures
        match r {
            Ok(e) => e == event && identity_fault(event@->Checked_0) is None,
            Err(fault) => identity_fault(event@->Checked_0) == Some(fault@),
        },
{
    match event {
        Event::Checked(Ok(same)) => if same {
            Ok(event)
        } else {
            Err(Fault::TemporaryReplaced)
        },
        Event::Checked(Err(detail)) => Err(Fault::System(detail)),
        _ => unreached(),
    }
}

fn removal_after(step: RemoveStep, event: &Event) -> (r: Option<RemoveStep>)
    requires
        step is Inspect ==> event is Inspected,
    ensures
        r == next_removal(step, event@),
{
    match step {
        RemoveStep::Inspect => match event {
            Event::Inspected(Ok(there)) => if *there {
                Some(RemoveStep::Check)
            } else {
                Some(RemoveStep::Sync)
            },
            _ => Some(RemoveStep::Sync),
        },
        RemoveStep::Check => Some(RemoveStep::Unlink),
        RemoveStep::Unlink => Some(RemoveStep::Sync),
        RemoveStep::Sync => None,
    }
}

fn resume(plan: Plan, stage: Stage, name: Vec<u8>) -> (r: Progress)
    ensures
        r@ == ProgressView::Continue(
            WorkView { plan: plan@, stage, name: name@, troubles: Seq::empty() },
        ),
{
    let work = Work { plan, stage, name, troubles: Vec::new() };
    assert(trouble_views(work.troubles@) =~= Seq::empty());
    Progress::Continue(work)
}

fn proceed(plan: Plan, stage: Stage, name: Vec<u8>, troubles: Vec<Trouble>) -> (r: Progress)
    ensures
        r@ == ProgressView::Continue(
            WorkView { plan: plan@, stage, name: name@, troubles: trouble_views(troubles@) },
        ),
{
    Progress::Continue(Work { plan, stage, name, troubles })
}

fn with_trouble(troubles: Vec<Trouble>, path: NativePath, fault: Fault) -> (r: Vec<Trouble>)
    ensures
        trouble_views(r@) == trouble_views(troubles@).push(
            TroubleView { path: path@, fault: fault@ },
        ),
{
    let mut out = troubles;
    let ghost added = TroubleView { path: path@, fault: fault@ };
    out.push(Trouble { path, fault });
    assert(trouble_views(out@) =~= trouble_views(troubles@).push(added));
    out
}

fn no_name() -> (r: Vec<u8>)
    ensures
        r@ == Seq::<u8>::empty(),
{
    Vec::new()
}

impl Swap {
    /// The newest file.
    pub fn path(&self) -> (r: Option<NativePath>)
        ensures
            path_option(r) == current_path(self@),
    {
        let count = self.files.len();
        if count == 0 {
            None
        } else {
            Some(self.files[count - 1].path.clone())
        }
    }

    /// The paths of the copies and of the retained backups.
    fn backups(&self) -> (r: Vec<NativePath>)
        ensures
            path_views(r@) == backups_of(self@),
    {
        let mut out: Vec<NativePath> = Vec::new();
        let mut i: usize = 0;
        assert(path_views(out@) =~= archive_paths(self@.recovered.take(0)));
        while i < self.recovered.len()
            invariant
                i <= self.recovered@.len(),
                path_views(out@) == archive_paths(self@.recovered.take(i as int)),
            decreases self.recovered@.len() - i,
        {
            let ghost before = path_views(out@);
            proof {
                assert(self@.recovered.take(i + 1).drop_last() =~= self@.recovered.take(i as int));
                assert(self@.recovered[i as int] == self.recovered@[i as int]@);
            }
            if let Some(archive) = &self.recovered[i].archive {
                out.push(archive.path.clone());
                assert(path_views(out@) =~= before.push(archive.path@));
            }
            i = i + 1;
        }
        assert(self@.recovered.take(i as int) =~= self@.recovered);
        let mut k: usize = 0;
        while k < self.retained_archives.len()
            invariant
                k <= self.retained_archives@.len(),
                path_views(out@) == archive_paths(self@.recovered)
                    + self@.retained_archives.take(k as int),
            decreases self.retained_archives@.len() - k,
        {
            let ghost before = path_views(out@);
            out.push(self.retained_archives[k].clone());
            proof {
                assert(path_views(out@) =~= before.push(self@.retained_archives[k as int]));
                assert(self@.retained_archives.take(k + 1) =~= self@.retained_archives.take(
                    k as int,
                ).push(self@.retained_archives[k as int]));
            }
            k = k + 1;
        }
        assert(self@.retained_archives.take(k as int) =~= self@.retained_archives);
        out
    }

    fn fail(&self, plan: &Plan, cause: Cause) -> (r: Progress)
        ensures
            (self@, r@) == failed(self@, plan@, cause@),
    {
        let backups = match plan {
            Plan::Write(_) => Vec::new(),
            Plan::Close => self.backups(),
        };
        assert(plan is Write ==> path_views(backups@) =~= Seq::empty());
        Progress::Failed(Failure { cause, backups })
    }

    fn fault(&self, plan: &Plan, fault: Fault) -> (r: Progress)
        ensures
            (self@, r@) == faulted(self@, plan@, fault@),
    {
        self.fail(plan, Cause::Fault(fault))
    }

    fn enter_retire(&mut self) -> (r: Progress)
        ensures
            (final(self)@, r@) == enter_retire(old(self)@),
    {
        if self.retain_recovered {
            assert(self@.retained_archives + released_paths(self@.recovered)
                =~= old(self)@.retained_archives + released_paths(old(self)@.recovered));
            while self.recovered.len() > 0
                invariant
                    self@.retained_archives + released_paths(self@.recovered)
                        == old(self)@.retained_archives + released_paths(old(self)@.recovered),
                    self@ == (SwapView {
                        recovered: self@.recovered,
                        retained_archives: self@.retained_archives,
                        ..old(self)@
                    }),
                decreases self.recovered@.len(),
            {
                let ghost before = self@;
                let ghost rest = released_paths(before.recovered.drop_last());
                if let Some(source) = self.recovered.pop() {
                    assert(self@.recovered =~= before.recovered.drop_last());
                    assert(before.recovered.last() == source@);
                    if let Some(archive) = source.archive {
                        self.retained_archives.push(archive.path);
                        assert(self@.retained_archives =~= before.retained_archives.push(
                            archive.path@,
                        ));
                        assert(self@.retained_archives + rest =~= before.retained_archives + (seq![
                            archive.path@,
                        ] + rest));
                    }
                }
            }
            assert(self@.recovered =~= Seq::empty());
            assert(self@.retained_archives + released_paths(self@.recovered)
                =~= self@.retained_archives);
            Progress::Closed(clone_paths(&self.retained_archives))
        } else {
            while self.recovered.len() > 0 && self.recovered[self.recovered.len()
                - 1].archive.is_none()
                invariant
                    without_uncopied(self@.recovered) == without_uncopied(old(self)@.recovered),
                    self@ == (SwapView { recovered: self@.recovered, ..old(self)@ }),
                decreases self.recovered@.len(),
            {
                let ghost before = self@.recovered;
                assert(before.last() == self.recovered@.last()@);
                self.recovered.pop();
                assert(self@.recovered =~= before.drop_last());
            }
            proof {
                if self.recovered@.len() > 0 {
                    assert(self@.recovered.last() == self.recovered@.last()@);
                }
            }
            if self.recovered.len() == 0 {
                Progress::Closed(clone_paths(&self.retained_archives))
            } else {
                resume(Plan::Close, Stage::Retire(RemoveStep::Inspect), no_name())
            }
        }
    }

    fn enter_remove(&mut self, plan: Plan, end: usize, troubles: Vec<Trouble>) -> (r: Progress)
        requires
            plan is Write ==> old(self)@.files.len() > 0,
        ensures
            (final(self)@, r@) == enter_remove(
                old(self)@,
                plan@,
                end as int,
                trouble_views(troubles@),
            ),
    {
        if end > 0 {
            proceed(plan, Stage::Remove(end, RemoveStep::Inspect), no_name(), troubles)
        } else if troubles.len() > 0 {
            self.fail(&plan, Cause::Cleanup(troubles))
        } else {
            match plan {
                Plan::Write(_) => {
                    assert(self@.files.last() == self.files@.last()@);
                    Progress::Written(self.files[self.files.len() - 1].path.clone())
                },
                Plan::Close => self.enter_retire(),
            }
        }
    }

    fn enter_publish(&self, plan: WritePlan) -> (r: Progress)
        ensures
            (self@, r@) == enter_publish(self@, plan@),
    {
        if !plan.migrate {
            resume(Plan::Write(plan), Stage::Publish(0, PublishStep::Current), no_name())
        } else if plan.directories.len() > 0 {
            resume(Plan::Write(plan), Stage::Publish(0, PublishStep::Stage), no_name())
        } else {
            let troubles: Vec<Trouble> = Vec::new();
            assert(trouble_views(troubles@) =~= Seq::empty());
            self.fail(&Plan::Write(plan), Cause::NoUsableDirectory(troubles))
        }
    }

    fn enter_archive(&mut self, plan: Plan, i: usize) -> (r: Progress)
        ensures
            (final(self)@, r@) == enter_archive(old(self)@, plan@, i as int),
    {
        if i < self.recovered.len() {
            assert(self@.recovered[i as int] == self.recovered@[i as int]@);
            let step = if self.recovered[i].original.is_none() {
                ArchiveStep::Verify
            } else if self.recovered[i].archive.is_none() {
                ArchiveStep::Examine
            } else {
                ArchiveStep::Confirm
            };
            resume(plan, Stage::Archive(i, step), no_name())
        } else {
            match plan {
                Plan::Write(plan) => self.enter_publish(plan),
                Plan::Close => {
                    let troubles: Vec<Trouble> = Vec::new();
                    assert(trouble_views(troubles@) =~= Seq::empty());
                    let end = self.files.len();
                    self.enter_remove(Plan::Close, end, troubles)
                },
            }
        }
    }
}

impl Swap {
    /// What the work asks of the file system.
    pub fn action(&self, work: &Work) -> (r: Action)
        requires
            work_ok(self@, work@),
        ensures
            r@ == action_of(self@, work@),
    {
        match work.stage {
            Stage::Archive(i, step) => self.archive_action(i, step, &work.name),
            Stage::Publish(k, step) => match &work.plan {
                Plan::Write(plan) => self.publish_action(plan, k, step, &work.name),
                Plan::Close => unreached(),
            },
            Stage::Settle => {
                let last = self.files.len() - 1;
                assert(self@.files[last as int] == self.files@[last as int]@);
                Action::SyncDirectory(directory_of_owned(&self.files[last]))
            },
            Stage::Remove(i, step) => {
                assert(self@.files[i - 1] == self.files@[i - 1]@);
                remove_action(&self.files[i - 1], step)
            },
            Stage::Retire(step) => {
                let last = self.recovered.len() - 1;
                assert(self@.recovered[last as int] == self.recovered@[last as int]@);
                assert(source_ok(self@.recovered[last as int]));
                match &self.recovered[last].archive {
                    Some(archive) => remove_action(archive, step),
                    None => unreached(),
                }
            },
        }
    }

    fn archive_action(&self, i: usize, step: ArchiveStep, name: &Vec<u8>) -> (r: Action)
        requires
            swap_ok(self@),
            i < self@.recovered.len(),
            archive_fits(self@.recovered[i as int], step, name@),
        ensures
            r@ == archive_action(self@.recovered[i as int], step, name@),
    {
        let source = &self.recovered[i];
        assert(self@.recovered[i as int] == source@);
        assert(source_ok(source@));
        match (step, &source.original, &source.archive) {
            (ArchiveStep::Verify, _, Some(archive)) => check_owned(archive),
            (ArchiveStep::Examine, Some(original), _) => check_owned(original),
            (ArchiveStep::Copy, Some(original), _) => Action::CopyOriginal {
                directory: directory_of_owned(original),
                lock: original.lock,
                prefix: copy_bytes(TEMP_PREFIX.as_bytes()),
                suffix: copy_bytes(ARCHIVE_SUFFIX.as_bytes()),
            },
            (ArchiveStep::Flush, _, _) => Action::SyncTemporary,
            (ArchiveStep::Recheck, Some(original), _) => check_owned(original),
            (ArchiveStep::Lock, _, _) => Action::LockTemporary,
            (ArchiveStep::Identify(lock), _, _) => Action::IdentifyTemporary { lock },
            (ArchiveStep::Persist(_), Some(original), _) => Action::Persist {
                destination: directory_of_owned(original).join(&archive_name(name.as_slice())),
                replace: false,
            },
            (ArchiveStep::Confirm, _, Some(archive)) => check_owned(archive),
            (ArchiveStep::Sync, _, Some(archive)) => Action::SyncDirectory(
                directory_of_owned(archive),
            ),
            _ => unreached(),
        }
    }

    fn publish_action(&self, plan: &WritePlan, k: usize, step: PublishStep, name: &Vec<u8>) -> (r:
        Action)
        requires
            swap_ok(self@),
            publish_fits(plan@, step, name@),
            plan.header@.len() <= MAX_HEADER,
            plan.migrate ==> k < plan.directories@.len(),
            !plan.migrate ==> self@.files.len() > 0,
        ensures
            r@ == publish_action(self@, plan@, k as int, step, name@),
    {
        proof {
            if self.files@.len() > 0 {
                assert(self@.files.last() == self.files@.last()@);
            }
        }
        match step {
            PublishStep::Current | PublishStep::Previous(_) => check_owned(
                &self.files[self.files.len() - 1],
            ),
            PublishStep::Stage => {
                let directory = if plan.migrate {
                    plan.directories[k].clone()
                } else {
                    directory_of_owned(&self.files[self.files.len() - 1])
                };
                Action::Stage {
                    create: prepare_directory(&directory, &plan.state_directory),
                    directory,
                    prefix: staging_prefix(&plan.snapshot.path),
                    suffix: copy_bytes(plan.suffix.as_str().as_bytes()),
                    contents: encode_file(plan.header.as_slice(), &plan.snapshot.text),
                }
            },
            PublishStep::Flush => Action::SyncTemporary,
            PublishStep::Lock => Action::LockTemporary,
            PublishStep::Identify(lock) => Action::IdentifyTemporary { lock },
            PublishStep::Persist(_) => Action::Persist {
                destination: self.target(plan, k, name),
                replace: !plan.migrate,
            },
        }
    }

    /// Where the snapshot is published.
    fn target(&self, plan: &WritePlan, k: usize, name: &Vec<u8>) -> (r: NativePath)
        requires
            temporary_file(name@),
            plan.migrate ==> k < plan.directories@.len(),
            !plan.migrate ==> self@.files.len() > 0,
        ensures
            r@ == target_path(self@, plan@, k as int, name@),
    {
        if plan.migrate {
            plan.directories[k].join(&published_name(name.as_slice()))
        } else {
            assert(self@.files.last() == self.files@.last()@);
            self.files[self.files.len() - 1].path.clone()
        }
    }

    /// Takes what came of the action that the work asked for.
    pub fn advance(&mut self, work: Work, event: Event) -> (r: Progress)
        requires
            work_ok(old(self)@, work@),
            admitted(action_of(old(self)@, work@), event@),
        ensures
            (final(self)@, r@) == step_of(old(self)@, work@, event@),
            progress_ok(final(self)@, r@),
    {
        let ghost before = self@;
        let ghost w = work@;
        let ghost e = event@;
        let Work { plan, stage, name, troubles } = work;
        let progress = match stage {
            Stage::Archive(i, step) => self.advance_archive(plan, i, step, name, event),
            Stage::Publish(k, step) => match plan {
                Plan::Write(plan) => self.advance_publish(plan, k, step, name, troubles, event),
                Plan::Close => unreached(),
            },
            Stage::Settle => self.advance_settle(plan, event),
            Stage::Remove(i, step) => self.advance_remove(plan, i, step, troubles, event),
            Stage::Retire(step) => self.advance_retire(step, event),
        };
        proof {
            assert(self@.files.len() == self.files.len());
            assert(self@.recovered.len() == self.recovered.len());
            lemma_step_ok(before, w, e);
        }
        progress
    }

    fn advance_archive(
        &mut self,
        plan: Plan,
        i: usize,
        step: ArchiveStep,
        name: Vec<u8>,
        event: Event,
    ) -> (r: Progress)
        requires
            swap_ok(old(self)@),
            i < old(self)@.recovered.len(),
            archive_fits(old(self)@.recovered[i as int], step, name@),
            admitted(archive_action(old(self)@.recovered[i as int], step, name@), event@),
        ensures
            (final(self)@, r@) == archive_step(old(self)@, plan@, i as int, step, name@, event@),
    {
        let ghost e = event@;
        let ghost source = self@.recovered[i as int];
        assert(source == self.recovered@[i as int]@);
        assert(source_ok(source));
        let verdict = match step {
            ArchiveStep::Identify(_) => identify(event),
            _ => examine(event),
        };
        let event = match verdict {
            Ok(event) => event,
            Err(fault) => {
                return match (step, fault) {
                    (ArchiveStep::Sync, Fault::System(detail)) => {
                        match &self.recovered[i].archive {
                            Some(archive) => {
                                let path = archive.path.clone();
                                self.fail(&plan, Cause::SyncArchive(path, detail))
                            },
                            None => unreached(),
                        }
                    },
                    (_, fault) => self.fault(&plan, fault),
                };
            },
        };
        match step {
            ArchiveStep::Verify => self.enter_archive(plan, i + 1),
            ArchiveStep::Examine => resume(plan, Stage::Archive(i, ArchiveStep::Copy), no_name()),
            ArchiveStep::Copy => match event {
                Event::Copied(Ok(copy)) => resume(
                    plan,
                    Stage::Archive(i, ArchiveStep::Flush),
                    copy.name,
                ),
                _ => unreached(),
            },
            ArchiveStep::Flush => resume(plan, Stage::Archive(i, ArchiveStep::Recheck), name),
            ArchiveStep::Recheck => resume(plan, Stage::Archive(i, ArchiveStep::Lock), name),
            ArchiveStep::Lock => match event {
                Event::Locked(Ok(lock)) => resume(
                    plan,
                    Stage::Archive(i, ArchiveStep::Identify(lock)),
                    name,
                ),
                _ => unreached(),
            },
            ArchiveStep::Identify(lock) => resume(
                plan,
                Stage::Archive(i, ArchiveStep::Persist(lock)),
                name,
            ),
            ArchiveStep::Persist(lock) => {
                let directory = match &self.recovered[i].original {
                    Some(original) => directory_of_owned(original),
                    None => unreached(),
                };
                let path = directory.join(&archive_name(name.as_slice()));
                let ghost before = self@;
                self.recovered[i].archive = Some(OwnedFile { path, lock });
                assert(self@.recovered =~= before.recovered.update(
                    i as int,
                    SourceView { archive: Some(OwnedView { path: path@, lock }), ..source },
                ));
                resume(plan, Stage::Archive(i, ArchiveStep::Confirm), no_name())
            },
            ArchiveStep::Confirm => resume(plan, Stage::Archive(i, ArchiveStep::Sync), no_name()),
            ArchiveStep::Sync => {
                let ghost before = self@;
                self.recovered[i].original = None;
                assert(self@.recovered =~= before.recovered.update(
                    i as int,
                    SourceView { original: None, ..source },
                ));
                self.enter_archive(plan, i + 1)
            },
        }
    }

    fn advance_publish(
        &mut self,
        plan: WritePlan,
        k: usize,
        step: PublishStep,
        name: Vec<u8>,
        troubles: Vec<Trouble>,
        event: Event,
    ) -> (r: Progress)
        requires
            swap_ok(old(self)@),
            publish_fits(plan@, step, name@),
            plan.migrate ==> k < plan.directories@.len(),
            !plan.migrate ==> old(self)@.files.len() > 0,
            admitted(publish_action(old(self)@, plan@, k as int, step, name@), event@),
        ensures
            (final(self)@, r@) == publish_step(
                old(self)@,
                plan@,
                k as int,
                step,
                name@,
                trouble_views(troubles@),
                event@,
            ),
    {
        let verdict = match step {
            PublishStep::Identify(_) => identify(event),
            _ => examine(event),
        };
        let event = match verdict {
            Ok(event) => event,
            Err(fault) => {
                return self.next_directory(plan, k, troubles, fault);
            },
        };
        match step {
            PublishStep::Current => proceed(
                Plan::Write(plan),
                Stage::Publish(k, PublishStep::Stage),
                no_name(),
                troubles,
            ),
            PublishStep::Stage => match event {
                Event::Staged(Ok(name)) => proceed(
                    Plan::Write(plan),
                    Stage::Publish(k, PublishStep::Flush),
                    name,
                    troubles,
                ),
                _ => unreached(),
            },
            PublishStep::Flush => proceed(
                Plan::Write(plan),
                Stage::Publish(k, PublishStep::Lock),
                name,
                troubles,
            ),
            PublishStep::Lock => match event {
                Event::Locked(Ok(lock)) => proceed(
                    Plan::Write(plan),
                    Stage::Publish(k, PublishStep::Identify(lock)),
                    name,
                    troubles,
                ),
                _ => unreached(),
            },
            PublishStep::Identify(lock) => {
                let next = if plan.migrate {
                    PublishStep::Persist(lock)
                } else {
                    PublishStep::Previous(lock)
                };
                proceed(Plan::Write(plan), Stage::Publish(k, next), name, troubles)
            },
            PublishStep::Previous(lock) => proceed(
                Plan::Write(plan),
                Stage::Publish(k, PublishStep::Persist(lock)),
                name,
                troubles,
            ),
            PublishStep::Persist(lock) => {
                self.publish(&plan, k, &name, lock);
                resume(Plan::Write(plan), Stage::Settle, no_name())
            },
        }
    }

    /// Records a published snapshot.
    fn publish(&mut self, plan: &WritePlan, k: usize, name: &Vec<u8>, lock: u64)
        requires
            temporary_file(name@),
            plan.migrate ==> k < plan.directories@.len(),
            !plan.migrate ==> old(self)@.files.len() > 0,
        ensures
            final(self)@ == published(old(self)@, plan@, k as int, name@, lock),
    {
        let path = self.target(plan, k, name);
        let ghost file = OwnedView { path: path@, lock };
        if !plan.migrate {
            self.files.pop();
            assert(self@.files =~= old(self)@.files.drop_last());
        }
        let ghost kept = self@.files;
        self.source_path = clone_option(&plan.snapshot.path);
        self.source_cwd = plan.snapshot.cwd.clone();
        self.directories = clone_paths(&plan.directories);
        self.suffix = plan.suffix.clone();
        self.files.push(OwnedFile { path, lock });
        assert(self@.files =~= kept.push(file));
    }

    fn next_directory(
        &self,
        plan: WritePlan,
        k: usize,
        troubles: Vec<Trouble>,
        fault: Fault,
    ) -> (r: Progress)
        requires
            plan.migrate ==> k < plan.directories@.len(),
        ensures
            (self@, r@) == publish_faulted(
                self@,
                plan@,
                k as int,
                trouble_views(troubles@),
                fault@,
            ),
    {
        if !plan.migrate {
            return self.fault(&Plan::Write(plan), fault);
        }
        let troubles = with_trouble(troubles, plan.directories[k].clone(), fault);
        if k < plan.directories.len() - 1 {
            proceed(
                Plan::Write(plan),
                Stage::Publish(k + 1, PublishStep::Stage),
                no_name(),
                troubles,
            )
        } else {
            self.fail(&Plan::Write(plan), Cause::NoUsableDirectory(troubles))
        }
    }

    fn advance_settle(&mut self, plan: Plan, event: Event) -> (r: Progress)
        requires
            event is Done,
            plan is Write,
            old(self)@.files.len() > 0,
        ensures
            (final(self)@, r@) == settle_step(old(self)@, plan@, event@),
    {
        assert(self@.files.last() == self.files@.last()@);
        let last = self.files.len() - 1;
        match event {
            Event::Done(Err(detail)) => {
                let path = self.files[last].path.clone();
                self.fail(&plan, Cause::SyncPublished(path, detail))
            },
            _ => {
                let troubles: Vec<Trouble> = Vec::new();
                assert(trouble_views(troubles@) =~= Seq::empty());
                self.enter_remove(plan, last, troubles)
            },
        }
    }

    fn advance_remove(
        &mut self,
        plan: Plan,
        i: usize,
        step: RemoveStep,
        troubles: Vec<Trouble>,
        event: Event,
    ) -> (r: Progress)
        requires
            0 < i <= old(self)@.files.len(),
            plan is Write ==> i < old(self)@.files.len(),
            admitted(removal_of(old(self)@.files[i - 1], step), event@),
        ensures
            (final(self)@, r@) == remove_step(
                old(self)@,
                plan@,
                i as int,
                step,
                trouble_views(troubles@),
                event@,
            ),
    {
        assert(self@.files[i - 1] == self.files@[i - 1]@);
        let event = match examine(event) {
            Ok(event) => event,
            Err(fault) => {
                let path = self.files[i - 1].path.clone();
                let troubles = with_trouble(troubles, path, fault);
                return self.enter_remove(plan, i - 1, troubles);
            },
        };
        match removal_after(step, &event) {
            Some(next) => proceed(plan, Stage::Remove(i, next), no_name(), troubles),
            None => {
                let ghost before = self@;
                self.files.remove(i - 1);
                assert(self@.files =~= before.files.remove(i - 1));
                self.enter_remove(plan, i - 1, troubles)
            },
        }
    }

    fn advance_retire(&mut self, step: RemoveStep, event: Event) -> (r: Progress)
        requires
            old(self)@.recovered.len() > 0,
            old(self)@.recovered.last().archive is Some,
            admitted(removal_of(old(self)@.recovered.last().archive->0, step), event@),
        ensures
            (final(self)@, r@) == retire_step(old(self)@, step, event@),
    {
        let event = match examine(event) {
            Ok(event) => event,
            Err(fault) => {
                return self.fault(&Plan::Close, fault);
            },
        };
        match removal_after(step, &event) {
            Some(next) => resume(Plan::Close, Stage::Retire(next), no_name()),
            None => {
                let ghost before = self@;
                self.recovered.pop();
                assert(self@.recovered =~= before.recovered.drop_last());
                self.enter_retire()
            },
        }
    }
}

/// Why a write is refused before anything is touched.
#[derive(Debug, Clone, Copy, PartialEq, Eq, Structural)]
pub enum WriteError {
    Config(ConfigError),
    Snapshot(SnapshotError),
    HeaderTooLong,
    Directories(DirectoriesError),
}

/// A write is fenced off by a close and by any newer attempt.
pub open spec fn fenced(s: SwapView, generation: u64) -> bool {
    s.closed || (s.last_generation matches Some(last) && generation < last)
}

/// The swap after a write was attempted: also a write that fails fences off older ones.
pub open spec fn attempted(s: SwapView, generation: u64) -> SwapView {
    if fenced(s, generation) {
        s
    } else {
        SwapView { last_generation: Some(generation), ..s }
    }
}

/// Whether a snapshot is to be written at all.
pub open spec fn write_verdict(
    s: SwapView,
    snapshot: SnapshotView,
    config: ConfigView,
    generation: u64,
    reachable: bool,
) -> Result<bool, WriteError> {
    if fenced(s, generation) {
        Ok(false)
    } else {
        match config_fault(config, reachable) {
            Some(e) => Err(WriteError::Config(e)),
            None => if !config.enable || over_threshold(
                text_size(snapshot),
                config.size_threshold,
            ) {
                Ok(false)
            } else {
                match snapshot_fault(snapshot) {
                    Some(e) => Err(WriteError::Snapshot(e)),
                    None => Ok(true),
                }
            },
        }
    }
}

/// Why a write cannot begin.
pub open spec fn begin_fault(
    header: Seq<u8>,
    config: ConfigView,
    cwd: Seq<u8>,
    reachable: bool,
) -> Option<WriteError> {
    if header.len() > MAX_HEADER {
        Some(WriteError::HeaderTooLong)
    } else {
        match directories_fault(config, cwd, reachable) {
            Some(e) => Some(WriteError::Directories(e)),
            None => None,
        }
    }
}

/// Whether a write creates a file of another name: the path stays stable until the original, or
/// the working directory of an unnamed buffer, the directories or the suffix change. A backup is
/// never written over.
pub open spec fn migrates(
    s: SwapView,
    snapshot: SnapshotView,
    directories: Seq<Seq<u8>>,
    suffix: Seq<char>,
) -> bool {
    ||| s.files.len() == 0
    ||| is_archive(s.files.last().path)
    ||| !same_option(s.source_path, snapshot.path)
    ||| snapshot.path is None && !same_path(s.source_cwd, snapshot.cwd)
    ||| !same_paths(s.directories, directories)
    ||| s.suffix != suffix
}

/// What a write is to do.
pub open spec fn plan_of(
    s: SwapView,
    snapshot: SnapshotView,
    header: Seq<u8>,
    config: ConfigView,
    expanded: Seq<Seq<u8>>,
    state_directory: Seq<u8>,
) -> WritePlanView {
    let directories = directories_of(config, expanded, snapshot.path, snapshot.cwd);
    WritePlanView {
        snapshot,
        header,
        directories,
        suffix: config.suffix,
        migrate: migrates(s, snapshot, directories, config.suffix),
        state_directory,
    }
}

/// The outcome of beginning a write.
pub open spec fn begin_outcome(
    before: SwapView,
    after: SwapView,
    r: Result<Progress, WriteError>,
    snapshot: SnapshotView,
    header: Seq<u8>,
    config: ConfigView,
    expanded: Seq<Seq<u8>>,
    state_directory: Seq<u8>,
    reachable: bool,
) -> bool {
    match r {
        Ok(progress) => {
            let plan = plan_of(before, snapshot, header, config, expanded, state_directory);
            &&& begin_fault(header, config, snapshot.cwd, reachable) is None
            &&& (after, progress@) == enter_archive(before, PlanView::Write(plan), 0)
            &&& progress_ok(after, progress@)
        },
        Err(e) => {
            &&& begin_fault(header, config, snapshot.cwd, reachable) == Some(e)
            &&& after == before
        },
    }
}

/// The first close fixes whether recovered files are retained.
pub open spec fn shut(s: SwapView, retain: bool) -> SwapView {
    SwapView {
        closed: true,
        retain_recovered: if s.closed {
            s.retain_recovered
        } else {
            retain
        },
        ..s
    }
}

/// What a close comes to before anything is touched.
pub open spec fn closing(s: SwapView, retain: bool) -> (SwapView, ProgressView) {
    let next = shut(s, retain);
    if next.retain_recovered {
        enter_archive(next, PlanView::Close, 0)
    } else {
        enter_remove(next, PlanView::Close, next.files.len() as int, Seq::empty())
    }
}

/// The swap after it adopted a claim.
pub open spec fn adopted(s: SwapView, recovery: RecoveryView) -> SwapView {
    SwapView {
        files: s.files.push(recovery.file),
        recovered: s.recovered.push(
            SourceView { original: Some(recovery.file), archive: None },
        ),
        source_path: recovery.source_path,
        source_cwd: recovery.source_cwd,
        directories: recovery.directories,
        suffix: recovery.suffix,
        ..s
    }
}

/// Whether a lock is that of an owned file.
pub open spec fn locked_by(file: Option<OwnedView>, lock: u64) -> bool {
    match file {
        Some(f) => f.lock == lock,
        None => false,
    }
}

/// Whether a lock is still needed by a recovered file.
pub open spec fn source_holds(source: SourceView, lock: u64) -> bool {
    locked_by(source.original, lock) || locked_by(source.archive, lock)
}

/// Whether a lock is still needed by anything that is owned.
pub open spec fn holds_lock(s: SwapView, lock: u64) -> bool {
    ||| exists|i: int| 0 <= i < s.files.len() && (#[trigger] s.files[i]).lock == lock
    ||| exists|i: int|
        0 <= i < s.recovered.len() && source_holds(#[trigger] s.recovered[i], lock)
}

impl Swap {
    /// Adopts a claim without touching a file. The swap is open and nothing is in progress; files
    /// that it already owned stay until the next write or close removes them.
    pub fn adopt(&mut self, recovered: Recovery)
        requires
            swap_ok(old(self)@),
            placed(recovered@.file),
        ensures
            final(self)@ == adopted(old(self)@, recovered@),
            swap_ok(final(self)@),
    {
        let ghost before = self@;
        let Recovery { snapshot, metadata, file, source_path, source_cwd, directories, suffix } =
            recovered;
        self.source_path = source_path;
        self.source_cwd = source_cwd;
        self.directories = directories;
        self.suffix = suffix;
        self.recovered.push(RecoveredSource { original: Some(file.clone()), archive: None });
        self.files.push(file);
        proof {
            let source = SourceView { original: Some(file@), archive: None };
            assert(self@.recovered =~= before.recovered.push(source));
            assert(self@.files =~= before.files.push(file@));
            assert(self@.files.len() == self.files.len());
            assert(self@.recovered.len() == self.recovered.len());
        }
    }

    /// Whether a snapshot is to be written at all, given whether the clock can represent the
    /// deadline of the configured update interval. Nothing is written when the swap is closed,
    /// when a newer generation was attempted, when recovery is disabled, or when the text is over
    /// the size limit. Equal generations are allowed, for a retry.
    pub fn write_with(
        &mut self,
        snapshot: &Snapshot,
        config: &Config,
        generation: u64,
        reachable: bool,
    ) -> (r: Result<bool, WriteError>)
        ensures
            r == write_verdict(old(self)@, snapshot@, config@, generation, reachable),
            final(self)@ == attempted(old(self)@, generation),
    {
        if self.closed {
            return Ok(false);
        }
        if let Some(last) = self.last_generation {
            if generation < last {
                return Ok(false);
            }
        }
        self.last_generation = Some(generation);
        match config.validate_with(reachable) {
            Ok(()) => {},
            Err(e) => {
                return Err(WriteError::Config(e));
            },
        }
        if !config.enable || snapshot.exceeds(config.size_threshold) {
            return Ok(false);
        }
        match snapshot.validate() {
            Ok(()) => Ok(true),
            Err(e) => Err(WriteError::Snapshot(e)),
        }
    }

    /// Whether a snapshot is to be written at all, by the clock of this machine.
    pub fn write(&mut self, snapshot: &Snapshot, config: &Config, generation: u64) -> (r: Result<
        bool,
        WriteError,
    >)
        ensures
            exists|reachable: bool| #[trigger]
                clock_answers(config.update_time, reachable) && r == write_verdict(
                    old(self)@,
                    snapshot@,
                    config@,
                    generation,
                    reachable,
                ),
            final(self)@ == attempted(old(self)@, generation),
    {
        let reachable = clock_reaches(config.update_time);
        self.write_with(snapshot, config, generation, reachable)
    }

    /// Begins the write of a snapshot whose original is resolved, given whether the clock can
    /// represent the deadline of the configured update interval. `header` is its header as it is
    /// written, and `expanded` holds the configured directories with their `~` expanded.
    pub fn begin_with(
        &mut self,
        snapshot: Snapshot,
        header: Vec<u8>,
        config: &Config,
        expanded: &Vec<NativePath>,
        state_directory: NativePath,
        reachable: bool,
    ) -> (r: Result<Progress, WriteError>)
        requires
            swap_ok(old(self)@),
            !old(self)@.closed,
            expanded@.len() == config.directories@.len(),
        ensures
            begin_outcome(
                old(self)@,
                final(self)@,
                r,
                snapshot@,
                header@,
                config@,
                path_views(expanded@),
                state_directory@,
                reachable,
            ),
    {
        if !header_fits(header.as_slice()) {
            return Err(WriteError::HeaderTooLong);
        }
        let directories = match directories_with(
            config,
            expanded,
            &snapshot.path,
            &snapshot.cwd,
            reachable,
        ) {
            Ok(found) => found,
            Err(e) => {
                return Err(WriteError::Directories(e));
            },
        };
        let migrate = self.migrates(&snapshot, &directories, &config.suffix);
        let plan = WritePlan {
            snapshot,
            header,
            directories,
            suffix: config.suffix.clone(),
            migrate,
            state_directory,
        };
        proof {
            let expected = plan_of(
                self@,
                snapshot@,
                header@,
                config@,
                path_views(expanded@),
                state_directory@,
            );
            assert(plan@ =~= expected);
            assert(plan@.directories.len() == plan.directories.len());
            lemma_archive_ok(self@, PlanView::Write(plan@), 0);
        }
        Ok(self.enter_archive(Plan::Write(plan), 0))
    }

    /// Begins the write of a snapshot, by the clock of this machine.
    pub fn begin(
        &mut self,
        snapshot: Snapshot,
        header: Vec<u8>,
        config: &Config,
        expanded: &Vec<NativePath>,
        state_directory: NativePath,
    ) -> (r: Result<Progress, WriteError>)
        requires
            swap_ok(old(self)@),
            !old(self)@.closed,
            expanded@.len() == config.directories@.len(),
        ensures
            exists|reachable: bool| #[trigger]
                clock_answers(config.update_time, reachable) && begin_outcome(
                    old(self)@,
                    final(self)@,
                    r,
                    snapshot@,
                    header@,
                    config@,
                    path_views(expanded@),
                    state_directory@,
                    reachable,
                ),
    {
        let reachable = clock_reaches(config.update_time);
        self.begin_with(snapshot, header, config, expanded, state_directory, reachable)
    }

    fn migrates(&self, snapshot: &Snapshot, directories: &Vec<NativePath>, suffix: &String) -> (r:
        bool)
        ensures
            r == migrates(self@, snapshot@, path_views(directories@), suffix@),
    {
        let count = self.files.len();
        if count == 0 {
            return true;
        }
        assert(self@.files.last() == self.files@.last()@);
        archive_path(&self.files[count - 1].path) || !options_match(
            &self.source_path,
            &snapshot.path,
        ) || (snapshot.path.is_none() && !self.source_cwd.same(&snapshot.cwd)) || !lists_match(
            &self.directories,
            directories,
        ) || self.suffix != *suffix
    }

    /// Fences off writes, then cleans up. The first call fixes the retention: a later one cannot
    /// delete backups that were selected for retention. Callers may pass false only after
    /// recovered work was successfully written and the buffer intentionally closed.
    pub fn close(&mut self, retain_recovered: bool) -> (r: Progress)
        requires
            swap_ok(old(self)@),
        ensures
            (final(self)@, r@) == closing(old(self)@, retain_recovered),
            progress_ok(final(self)@, r@),
    {
        if !self.closed {
            self.retain_recovered = retain_recovered;
        }
        self.closed = true;
        assert(self@ =~= shut(old(self)@, retain_recovered));
        if self.retain_recovered {
            proof {
                lemma_archive_ok(self@, PlanView::Close, 0);
            }
            self.enter_archive(Plan::Close, 0)
        } else {
            proof {
                lemma_remove_ok(self@, PlanView::Close, self@.files.len() as int, Seq::empty());
            }
            let troubles: Vec<Trouble> = Vec::new();
            assert(trouble_views(troubles@) =~= Seq::empty());
            let end = self.files.len();
            self.enter_remove(Plan::Close, end, troubles)
        }
    }

    /// Whether a lock is still needed. One that is not is released.
    pub fn holds(&self, lock: u64) -> (r: bool)
        ensures
            r == holds_lock(self@, lock),
    {
        let mut i: usize = 0;
        while i < self.files.len()
            invariant
                i <= self.files@.len(),
                forall|k: int| 0 <= k < i ==> (#[trigger] self@.files[k]).lock != lock,
            decreases self.files@.len() - i,
        {
            assert(self@.files[i as int] == self.files@[i as int]@);
            if self.files[i].lock == lock {
                return true;
            }
            i = i + 1;
        }
        let mut k: usize = 0;
        while k < self.recovered.len()
            invariant
                k <= self.recovered@.len(),
                forall|j: int| 0 <= j < self@.files.len() ==> (#[trigger] self@.files[j]).lock
                    != lock,
                forall|j: int|
                    0 <= j < k ==> !source_holds(#[trigger] self@.recovered[j], lock),
            decreases self.recovered@.len() - k,
        {
            let source = &self.recovered[k];
            assert(self@.recovered[k as int] == source@);
            if let Some(original) = &source.original {
                if original.lock == lock {
                    return true;
                }
            }
            if let Some(archive) = &source.archive {
                if archive.lock == lock {
                    return true;
                }
            }
            k = k + 1;
        }
        false
    }

    /// Whether an event can have come of the action that the work asked for.
    pub fn admits(&self, work: &Work, event: &Event) -> (r: bool)
        requires
            work_ok(self@, work@),
        ensures
            r == admitted(action_of(self@, work@), event@),
    {
        match work.stage {
            Stage::Archive(_, step) => match step {
                ArchiveStep::Verify
                | ArchiveStep::Examine
                | ArchiveStep::Recheck
                | ArchiveStep::Identify(_)
                | ArchiveStep::Confirm => is_checked(event),
                ArchiveStep::Copy => is_copied(event),
                ArchiveStep::Lock => is_locked(event),
                ArchiveStep::Flush | ArchiveStep::Persist(_) | ArchiveStep::Sync => is_done(event),
            },
            Stage::Publish(_, step) => match step {
                PublishStep::Current | PublishStep::Identify(_) | PublishStep::Previous(_) => {
                    is_checked(event)
                },
                PublishStep::Stage => is_staged(event),
                PublishStep::Lock => is_locked(event),
                PublishStep::Flush | PublishStep::Persist(_) => is_done(event),
            },
            Stage::Settle => is_done(event),
            Stage::Remove(_, step) | Stage::Retire(step) => match step {
                RemoveStep::Inspect => is_inspected(event),
                RemoveStep::Check => is_checked(event),
                RemoveStep::Unlink | RemoveStep::Sync => is_done(event),
            },
        }
    }
}

fn is_checked(event: &Event) -> (r: bool)
    ensures
        r == (event@ is Checked),
{
    matches!(event, Event::Checked(_))
}

fn is_inspected(event: &Event) -> (r: bool)
    ensures
        r == (event@ is Inspected),
{
    matches!(event, Event::Inspected(_))
}

fn is_locked(event: &Event) -> (r: bool)
    ensures
        r == (event@ is Locked),
{
    matches!(event, Event::Locked(_))
}

fn is_done(event: &Event) -> (r: bool)
    ensures
        r == (event@ is Done),
{
    matches!(event, Event::Done(_))
}

fn plain_temporary(name: &Vec<u8>) -> (r: bool)
    ensures
        r == temporary_file(name@),
{
    if !temporary_name(name.as_slice()) {
        return false;
    }
    let mut i: usize = 0;
    while i < name.len()
        invariant
            i <= name@.len(),
            forall|k: int| 0 <= k < i ==> name@[k] != SEPARATOR,
        decreases name@.len() - i,
    {
        if name[i] == SEPARATOR {
            assert(name@.contains(name@[i as int]));
            return false;
        }
        i = i + 1;
    }
    true
}

fn is_copied(event: &Event) -> (r: bool)
    ensures
        r == (event@ matches EventView::Copied(c) && (c matches Ok(copy) ==> temporary_file(
            copy.0,
        ))),
{
    match event {
        Event::Copied(Ok(copy)) => plain_temporary(&copy.name),
        Event::Copied(Err(_)) => true,
        _ => false,
    }
}

fn is_staged(event: &Event) -> (r: bool)
    ensures
        r == (event@ matches EventView::Staged(c) && (c matches Ok(name) ==> temporary_file(name))),
{
    match event {
        Event::Staged(Ok(name)) => plain_temporary(name),
        Event::Staged(Err(_)) => true,
        _ => false,
    }
}

} // verus!
