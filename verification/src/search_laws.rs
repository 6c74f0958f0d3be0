//! A file that a write published is found again by a search.

use vstd::prelude::*;
use vstd::utf8::encode_utf8;

use crate::config::ConfigView;
use crate::directories::{directories_of, directory_of, distinct, entries_of};
use crate::discovery::{
    discovery_of, header_matches, law_every_file_is_found_or_reported, law_written_header_matches,
    DiscoveryView, EntryView, ListingView, SearchView,
};
use crate::format::{header_of, HeaderView, RecoveryMetadata};
use crate::laws::{
    law_write_outcome, lemma_run_ok, possible, run, succeeded, write_course, write_started,
};
use crate::model::{
    action_of, admitted, enter_archive, lemma_archive_ok, step_of, target_path, temporary_file,
    work_ok, SwapView,
};
use crate::names::{
    is_offered, law_published_files_are_offered, lemma_renamed, named_between, published_name_of,
    staging_prefix_of, PREFIX,
};
use crate::paths::{
    components, is_absolute, joined, last_separator, law_join_components, leads_with_cur_dir,
    lemma_last_separator, lemma_parent_is_prefix, lists_path, parent_of, pieces, plain_name,
    same_path, same_paths, Component,
};
use crate::swap::plan_of;
use crate::work::{
    ActionView, EventView, PlanView, ProgressView, PublishStep, Stage, WorkView, WritePlanView,
};

verus! {

/// A staged file has a name as it was asked for: the prefix, some text and the suffix.
pub open spec fn named_as_asked(action: ActionView, event: EventView) -> bool {
    action matches ActionView::Stage { prefix, suffix, .. } ==> (event matches EventView::Staged(
        Ok(name),
    ) ==> exists|text: Seq<char>| name == #[trigger] named_between(prefix, text, suffix))
}

pub open spec fn always_named_as_asked(
    s: SwapView,
    p: ProgressView,
    events: Seq<EventView>,
) -> bool
    decreases events.len(),
{
    events.len() > 0 ==> {
        let before = run(s, p, events.drop_last());
        &&& always_named_as_asked(s, p, events.drop_last())
        &&& named_as_asked(action_of(before.0, before.1->Continue_0), events.last())
    }
}

/// The path lies in one of the directories, under a name that a search for the suffix offers.
pub open spec fn lies_offered(
    path: Seq<u8>,
    directories: Seq<Seq<u8>>,
    suffix: Seq<char>,
) -> bool {
    exists|k: int, name: Seq<u8>|
        {
            &&& 0 <= k < directories.len()
            &&& plain_name(name)
            &&& is_offered(name, suffix)
            &&& same_path(path, #[trigger] joined(directories[k], name))
        }
}

/// The name of a temporary file of a write.
pub open spec fn staged_name(plan: WritePlanView, name: Seq<u8>) -> bool {
    exists|text: Seq<char>|
        name == #[trigger] named_between(
            staging_prefix_of(plan.snapshot.path),
            text,
            encode_utf8(plan.suffix),
        )
}

/// What a write knows of names: the temporary file has one as it was asked for, and the published
/// file lies where a search finds it.
pub open spec fn naming_course(plan: WritePlanView, s: SwapView, p: ProgressView) -> bool {
    match p {
        ProgressView::Continue(w) => match w.stage {
            Stage::Publish(_, step) => match step {
                PublishStep::Current | PublishStep::Stage => true,
                _ => staged_name(plan, w.name),
            },
            Stage::Settle | Stage::Remove(_, _) => lies_offered(
                s.files.last().path,
                plan.directories,
                plan.suffix,
            ),
            _ => true,
        },
        ProgressView::Written(path) => lies_offered(path, plan.directories, plan.suffix),
        _ => true,
    }
}

/// A published file lies offered.
proof fn lemma_published_lies_offered(plan: WritePlanView, k: int, name: Seq<u8>)
    requires
        0 <= k < plan.directories.len(),
        temporary_file(name),
        staged_name(plan, name),
    ensures
        lies_offered(
            joined(plan.directories[k], published_name_of(name)),
            plan.directories,
            plan.suffix,
        ),
{
    let text = choose|text: Seq<char>|
        name == #[trigger] named_between(
            staging_prefix_of(plan.snapshot.path),
            text,
            encode_utf8(plan.suffix),
        );
    law_published_files_are_offered(plan.snapshot.path, text, plan.suffix);
    lemma_renamed(name, encode_utf8(PREFIX@));
    assert(same_path(
        joined(plan.directories[k], published_name_of(name)),
        joined(plan.directories[k], published_name_of(name)),
    ));
}

proof fn lemma_naming_step(
    start: SwapView,
    plan: WritePlanView,
    s: SwapView,
    w: WorkView,
    event: EventView,
)
    requires
        write_started(start, plan),
        work_ok(s, w),
        write_course(start, plan, s, ProgressView::Continue(w)),
        naming_course(plan, s, ProgressView::Continue(w)),
        admitted(action_of(s, w), event),
        named_as_asked(action_of(s, w), event),
        !plan.migrate ==> lies_offered(start.files.last().path, plan.directories, plan.suffix),
    ensures
        naming_course(plan, step_of(s, w, event).0, step_of(s, w, event).1),
{
    let next = step_of(s, w, event).0;
    match w.stage {
        Stage::Publish(k, step) => {
            if step is Persist && succeeded(event) {
                assert(next.files.last().path == target_path(s, plan, k as int, w.name));
                if plan.migrate {
                    lemma_published_lies_offered(plan, k as int, w.name);
                }
            }
        },
        Stage::Remove(i, step) => {
            if next.files != s.files {
                assert(next.files == s.files.remove(i - 1));
                assert(next.files.last() == s.files.last());
            }
        },
        _ => {},
    }
}

proof fn lemma_naming_run(start: SwapView, plan: WritePlanView, events: Seq<EventView>)
    requires
        write_started(start, plan),
        !plan.migrate ==> lies_offered(start.files.last().path, plan.directories, plan.suffix),
        ({
            let begun = enter_archive(start, PlanView::Write(plan), 0);
            possible(begun.0, begun.1, events) && always_named_as_asked(begun.0, begun.1, events)
        }),
    ensures
        ({
            let begun = enter_archive(start, PlanView::Write(plan), 0);
            let ended = run(begun.0, begun.1, events);
            naming_course(plan, ended.0, ended.1)
        }),
    decreases events.len(),
{
    let begun = enter_archive(start, PlanView::Write(plan), 0);
    lemma_archive_ok(start, PlanView::Write(plan), 0);
    if events.len() > 0 {
        let front = events.drop_last();
        lemma_naming_run(start, plan, front);
        law_write_outcome(start, plan, front);
        lemma_run_ok(begun.0, begun.1, front);
        let before = run(begun.0, begun.1, front);
        lemma_naming_step(start, plan, before.0, before.1->Continue_0, events.last());
    }
}

proof fn lemma_pieces_have_no_root(s: Seq<u8>, i: int)
    requires
        0 <= i < pieces(s).len(),
    ensures
        pieces(s)[i] != Component::RootDir,
    decreases s.len(),
{
    lemma_last_separator(s);
    let cut = last_separator(s);
    if cut >= 0 && i < pieces(s.take(cut)).len() {
        lemma_pieces_have_no_root(s.take(cut), i);
    }
}

/// A path that is the same as an absolute one is absolute.
proof fn lemma_same_is_absolute(a: Seq<u8>, b: Seq<u8>)
    requires
        same_path(a, b),
        is_absolute(b),
    ensures
        is_absolute(a),
{
    assert(components(b)[0] == Component::RootDir);
    if !is_absolute(a) && !leads_with_cur_dir(a) {
        assert(components(a) =~= pieces(a.skip(0)));
        lemma_pieces_have_no_root(a.skip(0), 0);
    }
}

/// What lies offered in some directories does in directories that are the same.
proof fn lemma_same_directories(
    path: Seq<u8>,
    a: Seq<Seq<u8>>,
    b: Seq<Seq<u8>>,
    suffix: Seq<char>,
)
    requires
        lies_offered(path, a, suffix),
        same_paths(a, b),
        forall|k: int| 0 <= k < b.len() ==> is_absolute(#[trigger] b[k]),
    ensures
        lies_offered(path, b, suffix),
{
    let (k, name) = choose|k: int, name: Seq<u8>|
        {
            &&& 0 <= k < a.len()
            &&& plain_name(name)
            &&& is_offered(name, suffix)
            &&& same_path(path, #[trigger] joined(a[k], name))
        };
    assert(same_path(a[k], b[k]));
    lemma_same_is_absolute(a[k], b[k]);
    law_join_components(a[k], name);
    law_join_components(b[k], name);
    assert(same_path(path, joined(b[k], name)));
}

proof fn lemma_distinct_is_listed(paths: Seq<Seq<u8>>, k: int)
    requires
        0 <= k < distinct(paths).len(),
    ensures
        paths.contains(distinct(paths)[k]),
    decreases paths.len(),
{
    let kept = distinct(paths.drop_last());
    if k < kept.len() {
        lemma_distinct_is_listed(paths.drop_last(), k);
        let i = choose|i: int| 0 <= i < paths.len() - 1 && paths.drop_last()[i] == kept[k];
        assert(paths[i] == distinct(paths)[k]);
    } else {
        assert(paths[paths.len() - 1] == distinct(paths)[k]);
    }
}

/// Law: read against an absolute working directory, a configuration names absolute directories.
pub proof fn law_directories_are_absolute(
    config: ConfigView,
    expanded: Seq<Seq<u8>>,
    path: Option<Seq<u8>>,
    cwd: Seq<u8>,
    k: int,
)
    requires
        is_absolute(cwd),
        0 <= k < directories_of(config, expanded, path, cwd).len(),
    ensures
        is_absolute(directories_of(config, expanded, path, cwd)[k]),
{
    let entries = entries_of(config.directories, expanded, path, cwd);
    lemma_distinct_is_listed(entries, k);
    let i = choose|i: int| 0 <= i < entries.len() && entries[i] == distinct(entries)[k];
    assert(entries[i] == directory_of(config.directories[i], expanded[i], path, cwd));
    law_join_components(cwd, expanded[i]);
    if let Some(original) = path {
        law_join_components(cwd, original);
        if parent_of(joined(cwd, original)) is Some {
            lemma_parent_is_prefix(joined(cwd, original));
        }
    }
}

/// The listing of a directory holds every readable file that lies in it.
pub open spec fn shows_file(
    search: SearchView,
    listings: Seq<ListingView>,
    path: Seq<u8>,
    header: HeaderView,
) -> bool {
    forall|k: int, name: Seq<u8>|
        0 <= k < search.directories.len() && plain_name(name) && same_path(
            path,
            #[trigger] joined(search.directories[k], name),
        ) ==> listings[k] is Entries && listings[k]->Entries_0.contains(
            (EntryView::File { name, header: Ok(header) }),
        )
}

proof fn lemma_offered_is_found(
    r: DiscoveryView,
    search: SearchView,
    listings: Seq<ListingView>,
    path: Seq<u8>,
    header: HeaderView,
)
    requires
        discovery_of(r, search, listings),
        listings.len() == search.directories.len(),
        lies_offered(path, search.directories, search.suffix),
        shows_file(search, listings, path, header),
        header_matches(header, search.path, search.cwd),
    ensures
        lists_path(r.candidates, path),
{
    let (k, name) = choose|k: int, name: Seq<u8>|
        {
            &&& 0 <= k < search.directories.len()
            &&& plain_name(name)
            &&& is_offered(name, search.suffix)
            &&& same_path(path, #[trigger] joined(search.directories[k], name))
        };
    let entries = listings[k]->Entries_0;
    let entry = EntryView::File { name, header: Ok(header) };
    assert(entries.contains(entry));
    let e = choose|e: int| 0 <= e < entries.len() && entries[e] == entry;
    law_every_file_is_found_or_reported(r, search, listings, k, e);
    let listed = joined(search.directories[k], name);
    assert(lists_path(r.candidates, listed));
    let i = choose|i: int|
        0 <= i < r.candidates.len() && same_path(#[trigger] r.candidates[i], listed);
    assert(same_path(r.candidates[i], path));
}

/// Law: what a write published is found again. A write that succeeds leaves its file in one of
/// the configured directories, under a name that is offered, and with a header that is that of the
/// original. A search of these directories for the original, or for the working directory of an
/// unnamed buffer, finds the file where the listings show it. Temporary files get names as they
/// are asked for. Where the write does not move, the file that it replaces must lie so already,
/// as every earlier write leaves it; a file that was claimed under another name does not.
pub proof fn law_written_file_is_found_again(
    start: SwapView,
    plan: WritePlanView,
    events: Seq<EventView>,
    config: ConfigView,
    expanded: Seq<Seq<u8>>,
    facts: RecoveryMetadata,
    search: SearchView,
    listings: Seq<ListingView>,
    r: DiscoveryView,
)
    requires
        write_started(start, plan),
        plan == plan_of(
            start,
            plan.snapshot,
            plan.header,
            config,
            expanded,
            plan.state_directory,
        ),
        is_absolute(plan.snapshot.cwd),
        plan.snapshot.path matches Some(original) ==> is_absolute(original),
        !plan.migrate ==> lies_offered(
            start.files.last().path,
            start.directories,
            start.suffix,
        ),
        ({
            let begun = enter_archive(start, PlanView::Write(plan), 0);
            possible(begun.0, begun.1, events) && always_named_as_asked(begun.0, begun.1, events)
        }),
        search.directories == plan.directories,
        search.suffix == config.suffix,
        search.path == plan.snapshot.path,
        search.path is None ==> same_path(plan.snapshot.cwd, search.cwd),
        discovery_of(r, search, listings),
        listings.len() == search.directories.len(),
    ensures
        ({
            let begun = enter_archive(start, PlanView::Write(plan), 0);
            let ended = run(begun.0, begun.1, events);
            let header = header_of(plan.snapshot, facts);
            ended.1 matches ProgressView::Written(path) ==> {
                &&& lies_offered(path, ended.0.directories, ended.0.suffix)
                &&& ended.0.directories == search.directories
                &&& ended.0.suffix == search.suffix
                &&& header_matches(header, search.path, search.cwd)
                &&& shows_file(search, listings, path, header) ==> lists_path(r.candidates, path)
            }
        }),
{
    let begun = enter_archive(start, PlanView::Write(plan), 0);
    let header = header_of(plan.snapshot, facts);
    assert forall|k: int| 0 <= k < plan.directories.len() implies is_absolute(
        #[trigger] plan.directories[k],
    ) by {
        law_directories_are_absolute(
            config,
            expanded,
            plan.snapshot.path,
            plan.snapshot.cwd,
            k,
        );
    }
    if !plan.migrate {
        lemma_same_directories(
            start.files.last().path,
            start.directories,
            plan.directories,
            plan.suffix,
        );
    }
    lemma_naming_run(start, plan, events);
    law_write_outcome(start, plan, events);
    law_written_header_matches(plan.snapshot, facts, search.cwd);
    if let ProgressView::Written(path) = run(begun.0, begun.1, events).1 {
        if shows_file(search, listings, path, header) {
            lemma_offered_is_found(r, search, listings, path, header);
        }
    }
}

} // verus!
