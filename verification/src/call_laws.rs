//! What callers can rely on: operations by what goes in and what comes out.

use vstd::prelude::*;
use vstd::utf8::{decode_utf8, encode_utf8, valid_utf8};

use crate::claim::{
    claim, claim_outcome, claim_with, law_when_a_file_is_claimed, recovery_of, ClaimError, Opened,
    Recovery,
};
use crate::config::{
    accepts_update_time, clock_answers, config_fault, deadline_answers, default_config,
    law_safe_suffixes, law_valid_configurations, recovery_directory, safe_suffix, suffix_number,
    valid_suffix, valid_update_count, valid_update_time, Config, ConfigError, ConfigView,
};
use crate::directories::{
    ancestors, ancestors_of, directories, directories_of, directories_with, directory_of,
    law_entries_name_directories, law_every_entry_is_used, prepare_directory, DirectoriesError,
};
use crate::discovery::{
    discover, discover_outcome, discover_with, discovery_of, law_candidates_match, listing_views,
    Discovery, EntryView, Listing, Search,
};
use crate::files::{
    accept_opened, check, file_fault, law_accepted_files, lock_byte, open_regular, seen_view,
    Fault, FaultView, FileError, FileFacts, LockByte,
};
use crate::format::{
    decode, described, encode_file, file_image, header_fits, header_length, header_length_of,
    header_of, law_readable_files, metadata_of, read, read_fault, read_header, Header, HeaderError,
    ReadError, RecoveryMetadata, StoredPath,
};
use crate::model::{action_of, admitted, step_of, SwapView};
use crate::names::{
    archive_name, archive_name_of, archive_path, description, description_of, is_archive,
    is_offered, is_temporary, offers, published_name, published_name_of, staging_prefix,
    staging_prefix_of, temporary_name,
};
use crate::paths::{
    components, file_name_of, is_absolute, joined, law_join_components,
    law_parent_drops_last_component, parent_of, part_views, path_less, path_option, path_views,
    pieces, remainder_of, Component, NativePath, Part,
};
use crate::resolve::{answered, query_of, resolution_of, Query, Resolution, Resolved};
use crate::schedule_laws::{
    law_deadline_moves_for_no_other_reason, law_recovery_brings_its_working_directory,
    law_scheduling_touches_nothing_else, schedules,
};
use crate::snapshot::{
    law_snapshot_is_in_order, original_file_of, snapshot_fault, Snapshot, SnapshotError,
    SnapshotView,
};
use crate::state::{
    disabled, first_change, initial_cwd, initial_cwd_of, initial_state, marked_written, polled,
    preserved, preserving, reconfigured, recorded, refreshed, shut_down, started, state_ok,
    with_recovery, with_saved_text, worker_ended, Outcome, PreserveError, State, StateView, Step,
};
use crate::swap::{
    adopted, attempted, begin_outcome, closing, current_path, holds_lock, write_verdict, Swap,
    WriteError,
};
use crate::text::rope_text;
use crate::work::{Action, Event, Progress, Work};
use crate::write_laws::law_when_a_write_is_made;

verus! {

/// Law: a snapshot passes validation exactly when its working directory is absolute, no path holds
/// a NUL, the primary selection is one of them, and every anchor and head is at most the number of
/// characters of the text.
pub proof fn law_validated_snapshots(snapshot: Snapshot, r: Result<(), SnapshotError>)
    requires
        call_ensures(Snapshot::validate, (&snapshot,), r),
    ensures
        ({
            let s = snapshot@;
            r is Ok <==> {
                &&& s.cwd.len() > 0 && s.cwd[0] == 47
                &&& !s.cwd.contains(0u8)
                &&& s.path is Some ==> !s.path->0.contains(0u8)
                &&& s.primary < s.selections.len()
                &&& forall|i: int|
                    0 <= i < s.selections.len() ==> (#[trigger] s.selections[i]).0 <= s.text.len()
                        && s.selections[i].1 <= s.text.len()
            }
        }),
        snapshot_fault(snapshot@) == (match r {
            Ok(()) => None,
            Err(e) => Some(e),
        }),
{
    law_snapshot_is_in_order(snapshot@);
}

/// Law: sizes, copies and originals of snapshots.
pub proof fn law_snapshot_calls(
    snapshot: Snapshot,
    threshold: usize,
    over: bool,
    path: Option<NativePath>,
    moved: Snapshot,
    original: Option<NativePath>,
)
    requires
        call_ensures(Snapshot::exceeds, (&snapshot, threshold), over),
        call_ensures(Snapshot::at_path, (&snapshot, path), moved),
        call_ensures(Snapshot::original_file, (&snapshot,), original),
    ensures
        over <==> threshold != 0 && encode_utf8(snapshot@.text).len() > threshold,
        moved@ == (SnapshotView { path: path_option(path), ..snapshot@ }),
        path_option(original) == original_file_of(snapshot@),
{
}

/// Law: a write is to be made exactly when the swap is open, no newer one was attempted, the
/// settings are valid and enable it, the text is within the limit and the snapshot is in order.
/// Unless it comes too late its generation is noted, also where it is refused.
pub proof fn law_write_calls(
    swap: &mut Swap,
    snapshot: Snapshot,
    config: Config,
    generation: u64,
    reachable: bool,
    r: Result<bool, WriteError>,
)
    requires
        call_ensures(
            Swap::write_with,
            (swap, &snapshot, &config, generation, reachable),
            r,
        ),
    ensures
        ({
            let s = old(swap)@;
            let stale = s.closed || (s.last_generation is Some && generation
                < s.last_generation->0);
            let c = config@;
            &&& r == Ok::<bool, WriteError>(true) <==> !stale && c.enable && config_fault(
                c,
                reachable,
            ) is None && (c.size_threshold == 0 || encode_utf8(snapshot@.text).len()
                <= c.size_threshold) && snapshot_fault(snapshot@) is None
            &&& stale ==> r == Ok::<bool, WriteError>(false) && final(swap)@ == s
            &&& !stale ==> final(swap)@ == (SwapView { last_generation: Some(generation), ..s })
            &&& r == write_verdict(s, snapshot@, c, generation, reachable)
        }),
{
    law_when_a_write_is_made(old(swap)@, snapshot@, config@, generation, reachable);
}

/// Law: the same by the clock of the machine, which is asked for the interval of the settings.
pub proof fn law_timed_write_calls(
    swap: &mut Swap,
    snapshot: Snapshot,
    config: Config,
    generation: u64,
    r: Result<bool, WriteError>,
)
    requires
        call_ensures(Swap::write, (swap, &snapshot, &config, generation), r),
    ensures
        exists|reachable: bool| #[trigger]
            clock_answers(config.update_time, reachable) && r == write_verdict(
                old(swap)@,
                snapshot@,
                config@,
                generation,
                reachable,
            ),
        final(swap)@ == attempted(old(swap)@, generation),
{
}

/// Law: a write begins with the plan of its snapshot and settings.
pub proof fn law_swap_calls(
    swap: &mut Swap,
    snapshot: Snapshot,
    header: Vec<u8>,
    config: Config,
    expanded: Vec<NativePath>,
    state_directory: NativePath,
    reachable: bool,
    r: Result<Progress, WriteError>,
)
    requires
        call_ensures(
            Swap::begin_with,
            (swap, snapshot, header, &config, &expanded, state_directory, reachable),
            r,
        ),
    ensures
        begin_outcome(
            old(swap)@,
            final(swap)@,
            r,
            snapshot@,
            header@,
            config@,
            path_views(expanded@),
            state_directory@,
            reachable,
        ),
{
}

/// Law: a write begins by the clock of the machine as it does for its answer.
pub proof fn law_timed_swap_calls(
    swap: &mut Swap,
    snapshot: Snapshot,
    header: Vec<u8>,
    config: Config,
    expanded: Vec<NativePath>,
    state_directory: NativePath,
    r: Result<Progress, WriteError>,
)
    requires
        call_ensures(
            Swap::begin,
            (swap, snapshot, header, &config, &expanded, state_directory),
            r,
        ),
    ensures
        exists|reachable: bool| #[trigger]
            clock_answers(config.update_time, reachable) && begin_outcome(
                old(swap)@,
                final(swap)@,
                r,
                snapshot@,
                header@,
                config@,
                path_views(expanded@),
                state_directory@,
                reachable,
            ),
{
}

/// Law: an event takes the work one step on.
pub proof fn law_step_calls(swap: &mut Swap, work: Work, event: Event, r: Progress)
    requires
        call_ensures(Swap::advance, (swap, work, event), r),
    ensures
        (final(swap)@, r@) == step_of(old(swap)@, work@, event@),
{
}

/// Law: a close shuts the swap, and the first one fixes whether recovered files are retained.
pub proof fn law_close_calls(swap: &mut Swap, retain: bool, r: Progress)
    requires
        call_ensures(Swap::close, (swap, retain), r),
    ensures
        (final(swap)@, r@) == closing(old(swap)@, retain),
        final(swap)@.closed,
        final(swap)@.retain_recovered == (if old(swap)@.closed {
            old(swap)@.retain_recovered
        } else {
            retain
        }),
{
    lemma_close_keeps(old(swap)@, retain);
}

proof fn lemma_close_keeps(s: SwapView, retain: bool)
    ensures
        closing(s, retain).0.closed,
        closing(s, retain).0.retain_recovered == (if s.closed {
            s.retain_recovered
        } else {
            retain
        }),
{
}

/// Law: a claim is adopted as it is stated.
pub proof fn law_adopt_calls(swap: &mut Swap, recovered: Recovery)
    requires
        call_ensures(Swap::adopt, (swap, recovered), ()),
    ensures
        final(swap)@ == adopted(old(swap)@, recovered@),
{
}

/// Law: what a swap says it asks for, admits, holds and has published.
pub proof fn law_swap_questions(
    swap: Swap,
    work: Work,
    event: Event,
    lock: u64,
    action: Action,
    fits: bool,
    held: bool,
    path: Option<NativePath>,
)
    requires
        call_ensures(Swap::action, (&swap, &work), action),
        call_ensures(Swap::admits, (&swap, &work, &event), fits),
        call_ensures(Swap::holds, (&swap, lock), held),
        call_ensures(Swap::path, (&swap,), path),
    ensures
        action@ == action_of(swap@, work@),
        fits == admitted(action_of(swap@, work@), event@),
        held == holds_lock(swap@, lock),
        path_option(path) == current_path(swap@),
{
}

/// Law: directories are named exactly by valid settings and an absolute working directory. Each
/// comes from an entry: one that is `.` names the directory of the original, and any other is
/// read against the working directory, whatever the original is.
pub proof fn law_directory_calls(
    config: Config,
    expanded: Vec<NativePath>,
    path: Option<NativePath>,
    cwd: NativePath,
    reachable: bool,
    r: Result<Vec<NativePath>, DirectoriesError>,
    i: int,
)
    requires
        call_ensures(directories_with, (&config, &expanded, &path, &cwd, reachable), r),
        expanded@.len() == config.directories@.len(),
    ensures
        r is Ok <==> config_fault(config@, reachable) is None && is_absolute(cwd@),
        r matches Ok(found) ==> path_views(found@) == directories_of(
            config@,
            path_views(expanded@),
            path_option(path),
            cwd@,
        ),
        r is Ok && 0 <= i < r->Ok_0@.len() ==> exists|e: int|
            #![trigger config@.directories[e]]
            {
                let entry = config@.directories[e];
                let meant = path_views(expanded@)[e];
                let named = components(r->Ok_0@[i]@);
                &&& 0 <= e < config@.directories.len()
                &&& components(entry) != seq![Component::CurDir] && is_absolute(meant)
                    ==> named == components(meant)
                &&& components(entry) != seq![Component::CurDir] && !is_absolute(
                    meant,
                ) ==> named == components(cwd@) + pieces(meant)
                &&& components(entry) == seq![Component::CurDir] && path is None
                    ==> named == components(cwd@)
                &&& components(entry) == seq![Component::CurDir] && path is Some
                    && components(joined(cwd@, path->0@)).len() > 1 ==> named == components(
                    joined(cwd@, path->0@),
                ).drop_last()
            },
{
    if r is Ok && 0 <= i < r->Ok_0@.len() {
        let views = path_views(expanded@);
        let found = directories_of(config@, views, path_option(path), cwd@);
        law_every_entry_is_used(config@, views, path_option(path), cwd@);
        assert(found[i] == r->Ok_0@[i]@);
        let e = choose|e: int|
            0 <= e < config@.directories.len() && found[i] == #[trigger] directory_of(
                config@.directories[e],
                views[e],
                path_option(path),
                cwd@,
            );
        law_entries_name_directories(
            config@.directories[e],
            views[e],
            path_option(path),
            path_option(path),
            cwd@,
        );
        assert(config@.directories[e] == config@.directories[e]);
    }
}

/// Law: the directories by the clock of the machine.
pub proof fn law_timed_directory_calls(
    config: Config,
    expanded: Vec<NativePath>,
    path: Option<NativePath>,
    cwd: NativePath,
    r: Result<Vec<NativePath>, DirectoriesError>,
)
    requires
        call_ensures(directories, (&config, &expanded, &path, &cwd), r),
    ensures
        exists|reachable: bool| #[trigger]
            clock_answers(config.update_time, reachable) && (r is Ok <==> config_fault(
                config@,
                reachable,
            ) is None && is_absolute(cwd@)),
        r matches Ok(found) ==> path_views(found@) == directories_of(
            config@,
            path_views(expanded@),
            path_option(path),
            cwd@,
        ),
{
}

/// Law: a search is for what is asked. Each candidate lies in a listed directory under an offered
/// name, and its header says the original that is sought: for a named one the same path, read
/// against its working directory where it is relative, and not merely the same last name.
pub proof fn law_search_calls(search: Search, listings: Vec<Listing>, r: Discovery, i: int)
    requires
        call_ensures(Search::conclude, (&search, listings), r),
        listings@.len() == search.directories@.len(),
        0 <= i < r@.candidates.len(),
        is_absolute(search@.cwd),
    ensures
        discovery_of(r@, search@, listing_views(listings@)),
        exists|d: int, e: int|
            #![trigger listing_views(listings@)[d]->Entries_0[e]]
            {
                let listing = listing_views(listings@)[d];
                &&& 0 <= d < listings@.len()
                &&& listing is Entries
                &&& 0 <= e < listing->Entries_0.len()
                &&& listing->Entries_0[e] matches EntryView::File { name, header: Ok(header) }
                &&& is_offered(name, search@.suffix)
                &&& r@.candidates[i] == joined(search@.directories[d], name)
                &&& header.path is Some <==> search@.path is Some
                &&& header.path is None ==> components(header.cwd) == components(search@.cwd)
                &&& header.path is Some ==> components(joined(header.cwd, header.path->0))
                    == components(joined(search@.cwd, search@.path->0))
            },
{
    law_candidates_match(r@, search@, listing_views(listings@), i);
}

/// Law: a search starts exactly with an absolute working directory and valid settings.
pub proof fn law_search_starts(
    config: Config,
    expanded: Vec<NativePath>,
    path: Option<NativePath>,
    cwd: NativePath,
    reachable: bool,
    r: Result<Search, DirectoriesError>,
)
    requires
        call_ensures(discover_with, (&config, &expanded, path, &cwd, reachable), r),
    ensures
        discover_outcome(
            r,
            config@,
            path_views(expanded@),
            path_option(path),
            cwd@,
            reachable,
        ),
        r is Ok <==> is_absolute(cwd@) && config_fault(config@, reachable) is None,
{
}

/// Law: the start of a search by the clock of the machine, and which entries it looks into.
pub proof fn law_timed_search_starts(
    config: Config,
    expanded: Vec<NativePath>,
    path: Option<NativePath>,
    cwd: NativePath,
    r: Result<Search, DirectoriesError>,
    name: &[u8],
    search: Search,
    offered: bool,
)
    requires
        call_ensures(discover, (&config, &expanded, path, &cwd), r),
        call_ensures(Search::offers, (&search, name), offered),
    ensures
        exists|reachable: bool| #[trigger]
            clock_answers(config.update_time, reachable) && discover_outcome(
                r,
                config@,
                path_views(expanded@),
                path_option(path),
                cwd@,
                reachable,
            ),
        offered == is_offered(name@, search@.suffix),
{
}

/// Law: a file is claimed exactly when its path has a directory, it can be read, the settings are
/// valid and its path still names it; the claim is that of the file.
pub proof fn law_claim_calls(
    opened: Opened,
    config: Config,
    expanded: Vec<NativePath>,
    reachable: bool,
    r: Result<Recovery, ClaimError>,
)
    requires
        call_ensures(claim_with, (opened, &config, &expanded, reachable), r),
    ensures
        r is Ok <==> parent_of(opened.path@) is Some && read_fault(
            opened.header@,
            opened.length as nat,
            opened.file_length,
            opened.rest@,
        ) is None && config_fault(config@, reachable) is None && seen_view(opened.seen) == Ok::<
            bool,
            Seq<char>,
        >(true),
        r matches Ok(found) ==> found@ == recovery_of(opened, config@, path_views(expanded@)),
{
    law_when_a_file_is_claimed(
        r,
        opened,
        config@,
        path_views(expanded@),
        reachable,
    );
}

/// Law: a claim by the clock of the machine, its path and its check.
pub proof fn law_timed_claim_calls(
    opened: Opened,
    config: Config,
    expanded: Vec<NativePath>,
    r: Result<Recovery, ClaimError>,
    recovery: Recovery,
    path: &NativePath,
    seen: Result<bool, String>,
    checked: Result<(), Fault>,
)
    requires
        call_ensures(claim, (opened, &config, &expanded), r),
        call_ensures(Recovery::path, (&recovery,), path),
        call_ensures(Recovery::check, (&recovery, seen), checked),
    ensures
        exists|reachable: bool| #[trigger]
            clock_answers(config.update_time, reachable) && claim_outcome(
                r,
                opened,
                config@,
                path_views(expanded@),
                reachable,
            ),
        path@ == recovery@.file.path,
        checked is Ok <==> seen_view(seen) == Ok::<bool, Seq<char>>(true),
{
}

/// Law: a claim that is taken over brings the working directory that is saved in the claimed file,
/// for the state and for the cached snapshot, whatever it was before, and the path of that file.
pub proof fn law_recovered_calls(
    state: &mut State,
    swap: &mut Swap,
    recovered: Recovery,
    snapshot: Snapshot,
    revision: usize,
    r: bool,
)
    requires
        call_ensures(State::recovered, (state, swap, recovered, snapshot, revision), r),
    ensures
        final(state)@.cwd == recovered@.snapshot.cwd,
        final(state)@.cached is Some,
        final(state)@.cached->0 == (SnapshotView { cwd: recovered@.snapshot.cwd, ..snapshot@ }),
        final(state)@.published_path == Some(recovered@.file.path),
        final(state)@.recovered_revision == Some(revision),
        !final(state)@.recovered_written,
        final(state)@.pending is None && final(state)@.deadline is None,
        final(state)@.ignore_through == old(state)@.generation,
        final(state)@ == with_recovery(old(state)@, recovered@, snapshot@, revision),
        final(swap)@ == adopted(old(swap)@, recovered@),
        r == old(state)@.worker,
{
    law_recovery_brings_its_working_directory(old(state)@, recovered@, snapshot@, revision);
}

/// Law: a change that is scheduled becomes the pending snapshot. Its deadline is the earlier of
/// the former one and the first pending change plus the update interval; only the first snapshot
/// and a full count bring it forward to now.
pub proof fn law_record_calls(
    state: &mut State,
    snapshot: Snapshot,
    config: Config,
    changed: usize,
    now: u64,
    reachable: bool,
    r: bool,
)
    requires
        call_ensures(State::record_with, (state, snapshot, config, changed, now, reachable), r),
        state_ok(old(state)@),
    ensures
        ({
            let v = old(state)@;
            let next = final(state)@;
            let first = if v.pending is Some {
                v.first_pending->0 as int
            } else {
                now as int
            };
            let due = first + config@.update_time * 1_000_000_000;
            let full = v.changed_chars + changed >= config@.update_count;
            &&& r <==> !config@.enable && v.worker
            &&& next == recorded(v, snapshot@, config@, changed, now, reachable)
            &&& schedules(v, snapshot@, config@, changed, reachable) ==> {
                &&& next.pending == Some((snapshot@, config@))
                &&& next.deadline is Some
                &&& v.attempted && !full && v.deadline is None ==> next.deadline->0 == due
                &&& v.attempted && !full && v.deadline is Some ==> next.deadline->0 == (if due
                    < v.deadline->0 {
                    due
                } else {
                    v.deadline->0 as int
                })
                &&& !v.attempted || full ==> next.deadline->0 <= now
            }
        }),
{
    if schedules(old(state)@, snapshot@, config@, changed, reachable) {
        law_deadline_moves_for_no_other_reason(
            old(state)@,
            snapshot@,
            config@,
            changed,
            now,
            reachable,
        );
        law_scheduling_touches_nothing_else(
            old(state)@,
            snapshot@,
            config@,
            changed,
            now,
            reachable,
        );
    }
}

/// Law: recording by the clock of the machine asks it for the deadline of this change, counted
/// from the first pending one, and does what it does for the answer.
pub proof fn law_timed_record_calls(
    state: &mut State,
    snapshot: Snapshot,
    config: Config,
    changed: usize,
    epoch: std::time::Instant,
    now: u64,
    r: bool,
)
    requires
        call_ensures(State::record, (state, snapshot, config, changed, &epoch, now), r),
    ensures
        r <==> !config@.enable && old(state)@.worker,
        exists|reachable: bool| #[trigger]
            deadline_answers(
                epoch,
                first_change(old(state)@, now),
                config.update_time,
                reachable,
            ) && final(state)@ == recorded(
                old(state)@,
                snapshot@,
                config@,
                changed,
                now,
                reachable,
            ),
{
}

/// Law: a refresh by the clock of the machine.
pub proof fn law_timed_refresh_calls(
    state: &mut State,
    path: Option<NativePath>,
    encoding: String,
    has_bom: bool,
    line_ending: String,
    config: Config,
    epoch: std::time::Instant,
    now: u64,
    r: bool,
)
    requires
        call_ensures(
            State::refresh,
            (state, path, encoding, has_bom, line_ending, config, &epoch, now),
            r,
        ),
    ensures
        r <==> old(state)@.cached is Some && !config@.enable && old(state)@.worker,
        exists|reachable: bool| #[trigger]
            deadline_answers(
                epoch,
                first_change(old(state)@, now),
                config.update_time,
                reachable,
            ) && final(state)@ == refreshed(
                old(state)@,
                path_option(path),
                encoding@,
                has_bom,
                line_ending@,
                config@,
                now,
                reachable,
            ),
{
}

/// Law: a new configuration by the clock of the machine.
pub proof fn law_timed_reconfigure_calls(
    state: &mut State,
    config: Config,
    epoch: std::time::Instant,
    now: u64,
    r: bool,
)
    requires
        call_ensures(State::reconfigure, (state, config, &epoch, now), r),
    ensures
        r <==> old(state)@.cached is Some && !config@.enable && old(state)@.worker,
        exists|reachable: bool| #[trigger]
            deadline_answers(
                epoch,
                first_change(old(state)@, now),
                config.update_time,
                reachable,
            ) && final(state)@ == reconfigured(old(state)@, config@, now, reachable),
{
}

/// Law: a refresh for a given answer of the clock.
pub proof fn law_refresh_calls(
    state: &mut State,
    path: Option<NativePath>,
    encoding: String,
    has_bom: bool,
    line_ending: String,
    config: Config,
    now: u64,
    reachable: bool,
    r: bool,
)
    requires
        call_ensures(
            State::refresh_with,
            (state, path, encoding, has_bom, line_ending, config, now, reachable),
            r,
        ),
    ensures
        r <==> old(state)@.cached is Some && !config@.enable && old(state)@.worker,
        final(state)@ == refreshed(
            old(state)@,
            path_option(path),
            encoding@,
            has_bom,
            line_ending@,
            config@,
            now,
            reachable,
        ),
{
}

/// Law: a new configuration for a given answer of the clock.
pub proof fn law_reconfigure_calls(
    state: &mut State,
    config: Config,
    now: u64,
    reachable: bool,
    r: bool,
)
    requires
        call_ensures(State::reconfigure_with, (state, config, now, reachable), r),
    ensures
        r <==> old(state)@.cached is Some && !config@.enable && old(state)@.worker,
        final(state)@ == reconfigured(old(state)@, config@, now, reachable),
{
}

/// Law: a saved text is taken over as it is stated.
pub proof fn law_saved_text_calls(state: &mut State, text: ropey::Rope)
    requires
        call_ensures(State::saved_text, (state, &text), ()),
    ensures
        final(state)@ == with_saved_text(old(state)@, rope_text(text)),
{
}

/// Law: a saved revision is noted as it is stated.
pub proof fn law_mark_written_calls(state: &mut State, revision: usize)
    requires
        call_ensures(State::mark_written, (state, revision), ()),
    ensures
        final(state)@ == marked_written(old(state)@, revision),
{
}

/// Law: disabling tells whether a write in progress is to be aborted.
pub proof fn law_disable_calls(state: &mut State, r: bool)
    requires
        call_ensures(State::disable, (state,), r),
    ensures
        final(state)@ == disabled(old(state)@),
        r == old(state)@.worker,
{
}

/// Law: an explicit write is refused exactly by a closed state. Else it is made with the given
/// settings, enabled, and with the next generation.
pub proof fn law_preserve_calls(
    state: &mut State,
    snapshot: Snapshot,
    config: Config,
    r: Result<(Config, u64), PreserveError>,
)
    requires
        call_ensures(State::preserve, (state, &snapshot, config), r),
    ensures
        r is Err <==> old(state)@.closed,
        r is Err ==> r->Err_0 == PreserveError::Closed && final(state)@ == old(state)@,
        r matches Ok((used, generation)) ==> {
            &&& final(state)@ == preserving(old(state)@, snapshot@)
            &&& used@ == (ConfigView { enable: true, ..config@ })
            &&& generation == final(state)@.generation
        },
{
}

/// Law: an explicit write has succeeded exactly when there is a path; else the limit is told.
pub proof fn law_preserved_calls(
    state: &mut State,
    unnamed: bool,
    threshold: usize,
    path: Option<NativePath>,
    r: Result<NativePath, PreserveError>,
)
    requires
        call_ensures(State::preserved, (state, unnamed, threshold, path), r),
    ensures
        r is Ok <==> path is Some,
        r matches Ok(published) ==> path_option(path) == Some(published@) && final(state)@
            == preserved(old(state)@, unnamed, published@),
        r matches Err(e) ==> e == PreserveError::Oversized(threshold) && final(state)@
            == old(state)@,
{
}

/// Law: what a poll comes to.
pub proof fn law_poll_calls(state: &mut State, now: u64, r: Step)
    requires
        call_ensures(State::poll, (state, now), r),
    ensures
        (final(state)@, r@) == polled(old(state)@, now),
{
}

/// Law: the end of a write.
pub proof fn law_worker_calls(state: &mut State, outcome: Outcome, now: u64, r: Step)
    requires
        call_ensures(State::worker_done, (state, outcome, now), r),
    ensures
        (final(state)@, r@) == worker_ended(old(state)@, outcome@, now),
{
}

/// Law: the end of a timer starts the pending write.
pub proof fn law_timer_calls(state: &mut State, r: Step)
    requires
        call_ensures(State::elapsed, (state,), r),
    ensures
        (final(state)@, r@) == started(old(state)@),
{
}

/// Law: a close of a state drops what is pending, and retains backups unless recovered work was
/// saved and they are not asked for. Only then, once the swap is closed, is no path left.
pub proof fn law_state_close_calls(state: &mut State, keep: bool, r: bool)
    requires
        call_ensures(State::close, (state, keep), r),
    ensures
        final(state)@ == shut_down(old(state)@),
        final(state)@.closed && final(state)@.pending is None && !final(state)@.worker,
        r <==> keep || !old(state)@.recovered_written,
{
}

/// Law: once the swap is closed no path is left, and nothing else changes.
pub proof fn law_released_calls(state: &mut State)
    requires
        call_ensures(State::released, (state,), ()),
    ensures
        final(state)@.published_path is None,
        final(state)@ == (StateView { published_path: None, ..old(state)@ }),
{
}

/// Law: what a state says of itself.
pub proof fn law_state_questions(
    current: Option<NativePath>,
    program: Option<NativePath>,
    new: State,
    state: State,
    cwd: &NativePath,
    path: Option<NativePath>,
    pending: bool,
    now: u64,
    counted: u64,
)
    requires
        call_ensures(State::new, (current, program), new),
        call_ensures(State::cwd, (&state,), cwd),
        call_ensures(State::path, (&state,), path),
        call_ensures(State::pending, (&state,), pending),
        call_ensures(State::counted_from, (&state, now), counted),
    ensures
        new@ == initial_state(initial_cwd_of(path_option(current), path_option(program))),
        cwd@ == state@.cwd,
        path_option(path) == state@.published_path,
        pending <==> state@.pending is Some || state@.worker || state@.notice is Some,
        counted == (match state@.first_pending {
            Some(first) => first,
            None => now,
        }),
{
}

/// Law: settings are validated by their suffix, update count and update interval alone.
pub proof fn law_config_calls(
    config: Config,
    reachable: bool,
    r: Result<(), ConfigError>,
    timed: Result<(), ConfigError>,
    suffix: &str,
    safe: bool,
    count: usize,
    counted: bool,
    value: u64,
    accepted: bool,
    valid: bool,
    state_dir: NativePath,
    defaults: Config,
)
    requires
        call_ensures(Config::validate_with, (&config, reachable), r),
        call_ensures(Config::validate, (&config,), timed),
        call_ensures(valid_suffix, (suffix,), safe),
        call_ensures(valid_update_count, (count,), counted),
        call_ensures(accepts_update_time, (value, reachable), accepted),
        call_ensures(valid_update_time, (value,), valid),
        call_ensures(Config::default_in, (&state_dir,), defaults),
    ensures
        r is Ok <==> safe_suffix(config@.suffix) && config@.update_count > 0 && config@.update_time
            > 0 && reachable,
        r matches Err(e) ==> config_fault(config@, reachable) == Some(e),
        exists|answer: bool| #[trigger]
            clock_answers(config.update_time, answer) && (timed is Ok <==> config_fault(
                config@,
                answer,
            ) is None),
        safe <==> 1 <= suffix@.len() <= 64 && suffix@[suffix@.len() - 1] != '.' && forall|i: int|
            0 <= i < suffix@.len() ==> suffix_number((#[trigger] suffix@[i]) as int),
        counted <==> count > 0,
        accepted <==> value > 0 && reachable,
        exists|answer: bool| #[trigger]
            clock_answers(value, answer) && (valid <==> value > 0 && answer),
        defaults@ == default_config(state_dir@),
{
    law_valid_configurations(config@, reachable);
    law_safe_suffixes(suffix@);
}

/// Law: which files are accepted and which owned files pass their check.
pub proof fn law_file_calls(
    regular: bool,
    opened: Result<(), FileError>,
    facts: FileFacts,
    user: u32,
    accepted: Result<(), FileError>,
    seen: Result<bool, String>,
    checked: Result<(), Fault>,
)
    requires
        call_ensures(open_regular, (regular,), opened),
        call_ensures(accept_opened, (facts, user), accepted),
        call_ensures(check, (seen,), checked),
    ensures
        opened is Ok <==> regular,
        accepted is Ok <==> facts.regular && facts.owner == user && facts.mode & 0o020 == 0
            && facts.mode & 0o002 == 0,
        accepted matches Err(e) ==> file_fault(facts, user) == Some(e),
        checked is Ok <==> seen_view(seen) == Ok::<bool, Seq<char>>(true),
        checked matches Err(fault) ==> (seen_view(seen) matches Err(detail) ==> fault@
            == FaultView::System(detail)) && (seen_view(seen) is Ok ==> fault@
            == FaultView::Replaced),
{
    law_accepted_files(facts, user);
}

/// Law: what is written of a snapshot and read of a file.
pub proof fn law_format_calls(
    snapshot: Snapshot,
    facts: RecoveryMetadata,
    new: Header,
    bytes: &[u8],
    text: ropey::Rope,
    file: Vec<u8>,
    start: &[u8],
    found: Result<usize, HeaderError>,
    header: Header,
    length: usize,
    file_length: u64,
    rest: &[u8],
    decoded: Result<(Snapshot, RecoveryMetadata), ReadError>,
    shown: Result<Snapshot, ReadError>,
)
    requires
        call_ensures(Header::new, (&snapshot, facts), new),
        call_ensures(encode_file, (bytes, &text), file),
        call_ensures(header_length, (start,), found),
        call_ensures(decode, (header, length, file_length, rest), decoded),
        call_ensures(read, (header, length, file_length, rest), shown),
    ensures
        new@ == header_of(snapshot@, facts),
        file@ == file_image(bytes@, rope_text(text)),
        found == header_length_of(start@),
        decoded is Ok <==> header@.version == 1 && file_length == 19 + length + header@.payload_len
            && rest@.len() == header@.payload_len && valid_utf8(rest@) && snapshot_fault(
            described(header@, decode_utf8(rest@)),
        ) is None,
        decoded matches Ok((s, m)) ==> s@ == described(header@, decode_utf8(rest@)) && m
            == metadata_of(header@),
        decoded matches Err(e) ==> read_fault(header@, length as nat, file_length, rest@) == Some(
            e,
        ),
        shown is Ok <==> decoded is Ok,
        shown matches Ok(s) ==> s@ == described(header@, decode_utf8(rest@)),
{
    law_readable_files(header@, length as nat, file_length, rest@);
}

/// Law: how files are named and told apart by their names.
pub proof fn law_name_calls(
    path: Option<NativePath>,
    said: Vec<u8>,
    prefix: Vec<u8>,
    name: &[u8],
    temporary: bool,
    published: NativePath,
    backup: NativePath,
    file: NativePath,
    archived: bool,
    suffix: &str,
    offered: bool,
)
    requires
        call_ensures(description, (&path,), said),
        call_ensures(staging_prefix, (&path,), prefix),
        call_ensures(temporary_name, (name,), temporary),
        call_ensures(published_name, (name,), published),
        call_ensures(archive_name, (name,), backup),
        call_ensures(archive_path, (&file,), archived),
        call_ensures(offers, (name, suffix), offered),
    ensures
        said@ == description_of(path_option(path)),
        prefix@ == staging_prefix_of(path_option(path)),
        temporary == is_temporary(name@),
        published@ == published_name_of(name@),
        backup@ == archive_name_of(name@),
        archived == is_archive(file@),
        offered == is_offered(name@, suffix@),
{
}

/// Law: paths are compared, joined and taken apart by their components.
pub proof fn law_path_calls(
    a: NativePath,
    b: NativePath,
    absolute: bool,
    nul: bool,
    same: bool,
    earlier: bool,
    whole: NativePath,
    parent: Option<NativePath>,
    name: Option<Vec<u8>>,
    above: Vec<NativePath>,
    created: Option<Vec<NativePath>>,
)
    requires
        call_ensures(NativePath::is_absolute, (&a,), absolute),
        call_ensures(NativePath::has_nul, (&a,), nul),
        call_ensures(NativePath::same, (&a, &b), same),
        call_ensures(NativePath::before, (&a, &b), earlier),
        call_ensures(NativePath::join, (&a, &b), whole),
        call_ensures(NativePath::parent, (&a,), parent),
        call_ensures(NativePath::file_name, (&a,), name),
        call_ensures(ancestors, (&a,), above),
        call_ensures(prepare_directory, (&a, &b), created),
    ensures
        absolute <==> a@.len() > 0 && a@[0] == 47,
        nul <==> a@.contains(0u8),
        same <==> components(a@) == components(b@),
        earlier <==> path_less(a@, b@),
        is_absolute(b@) ==> whole@ == b@,
        is_absolute(a@) && !is_absolute(b@) ==> components(whole@) == components(a@) + pieces(b@),
        whole@ == joined(a@, b@),
        path_option(parent) == parent_of(a@),
        parent matches Some(p) ==> components(p@) == components(a@).drop_last(),
        name is Some <==> file_name_of(a@) is Some,
        name matches Some(n) ==> file_name_of(a@) == Some(n@),
        path_views(above@) == ancestors_of(a@),
        created is Some <==> components(a@) == components(b@),
        created matches Some(list) ==> path_views(list@) == ancestors_of(a@),
{
    if is_absolute(a@) {
        law_join_components(a@, b@);
    }
    law_parent_drops_last_component(a@);
}

/// Law: resolution asks and takes answers as it is stated.
pub proof fn law_resolution_calls(
    path: NativePath,
    cwd: NativePath,
    start: Resolution,
    resolution: Resolution,
    query: Query,
    answer: Option<NativePath>,
    next: Resolved,
)
    requires
        call_ensures(Resolution::original_path, (&path, &cwd), start),
        call_ensures(Resolution::query, (&resolution,), query),
        call_ensures(Resolution::answer, (resolution, answer), next),
    ensures
        start@ == resolution_of(path@, cwd@),
        start@.path == joined(cwd@, path@) && start@.links == 0,
        query@ == query_of(resolution@),
        next@ == answered(resolution@, path_option(answer)),
{
}

/// Law: dropping what is pending changes nothing else.
pub proof fn law_clear_calls(state: &mut State)
    requires
        call_ensures(State::clear_pending, (state,), ()),
    ensures
        final(state)@ == (StateView {
            pending: None,
            changed_chars: 0,
            first_pending: None,
            deadline: None,
            sleep: None,
            ..old(state)@
        }),
{
}

/// Law: smaller operations on paths, headers and settings.
pub proof fn law_small_calls(
    path: NativePath,
    ancestor: NativePath,
    parts: Vec<Part>,
    rest: NativePath,
    text: &str,
    written: NativePath,
    stored: StoredPath,
    loaded: NativePath,
    header: Header,
    length: usize,
    file_length: u64,
    accepted: Result<(), HeaderError>,
    bytes: &[u8],
    fits: bool,
    recovery: NativePath,
    current: Option<NativePath>,
    program: Option<NativePath>,
    cwd: NativePath,
    locked: Option<LockByte>,
)
    requires
        call_ensures(NativePath::parts, (&path,), parts),
        call_ensures(NativePath::remainder, (&path, &ancestor), rest),
        call_ensures(NativePath::from_text, (text,), written),
        call_ensures(StoredPath::encode, (&path,), stored),
        call_ensures(StoredPath::decode, (stored,), loaded),
        call_ensures(read_header, (&header, length, file_length), accepted),
        call_ensures(header_fits, (bytes,), fits),
        call_ensures(recovery_directory, (&path,), recovery),
        call_ensures(initial_cwd, (current, program), cwd),
        call_ensures(lock_byte, (file_length,), locked),
    ensures
        part_views(parts@) == components(path@),
        rest@ == remainder_of(path@, ancestor@),
        written@ == encode_utf8(text@),
        loaded@ == path@,
        accepted is Ok <==> header@.version == 1 && file_length == 19 + length
            + header@.payload_len,
        fits <==> bytes@.len() <= 65536,
        recovery@ == joined(path@, encode_utf8("recovery"@)),
        cwd@ == initial_cwd_of(path_option(current), path_option(program)),
        locked is Some <==> file_length < 0x7fff_ffff_ffff_fffe,
        locked matches Some(byte) ==> byte.high * 0x1_0000_0000 + byte.low
            == 0x7fff_ffff_ffff_fffe,
{
}

} // verus!
