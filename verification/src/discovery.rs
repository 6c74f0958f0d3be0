//! Finding the recovery files of an original.

use vstd::prelude::*;

use crate::bytes::copy_bytes;
use crate::config::{clock_answers, clock_reaches, config_fault, Config, ConfigView};
use crate::directories::{directories_fault, directories_of, directories_with, DirectoriesError};
use crate::format::{header_of, Header, HeaderView, RecoveryMetadata};
use crate::names::{is_offered, offers};
use crate::paths::{
    components, is_absolute, joined, law_join_components, law_path_order_is_total,
    law_path_order_is_transitive, lists_path, path_less, path_option, path_views, pieces,
    same_path, NativePath,
};
use crate::snapshot::SnapshotView;

verus! {

/// Discovery does not read texts or remove anything. The warnings name the files that are
/// unreadable or corrupt.
#[derive(Debug)]
pub struct Discovery {
    pub candidates: Vec<NativePath>,
    /// The path of the candidate or directory, and what is wrong with it.
    pub warnings: Vec<(NativePath, String)>,
}

/// What a discovery stands for.
#[verifier::ext_equal]
pub struct DiscoveryView {
    pub candidates: Seq<Seq<u8>>,
    pub warnings: Seq<(Seq<u8>, Seq<char>)>,
}

pub open spec fn warning_views(warnings: Seq<(NativePath, String)>) -> Seq<(Seq<u8>, Seq<char>)> {
    warnings.map_values(|w: (NativePath, String)| (w.0@, w.1@))
}

impl View for Discovery {
    type V = DiscoveryView;

    open spec fn view(&self) -> DiscoveryView {
        DiscoveryView {
            candidates: path_views(self.candidates@),
            warnings: warning_views(self.warnings@),
        }
    }
}

impl Default for Discovery {
    fn default() -> (r: Discovery)
        ensures
            r@ == (DiscoveryView { candidates: Seq::empty(), warnings: Seq::empty() }),
    {
        let r = Discovery { candidates: Vec::new(), warnings: Vec::new() };
        assert(r@ =~= DiscoveryView { candidates: Seq::empty(), warnings: Seq::empty() });
        r
    }
}

/// One entry of a directory.
#[derive(Debug)]
pub enum Entry {
    /// The entry could not be read.
    Unreadable(String),
    /// A name, and the header of the file where the name is offered.
    File { name: Vec<u8>, header: Result<Header, String> },
}

#[verifier::ext_equal]
pub enum EntryView {
    Unreadable(Seq<char>),
    File { name: Seq<u8>, header: Result<HeaderView, Seq<char>> },
}

impl View for Entry {
    type V = EntryView;

    open spec fn view(&self) -> EntryView {
        match self {
            Entry::Unreadable(detail) => EntryView::Unreadable(detail@),
            Entry::File { name, header: Ok(header) } => EntryView::File {
                name: name@,
                header: Ok(header@),
            },
            Entry::File { name, header: Err(detail) } => EntryView::File {
                name: name@,
                header: Err(detail@),
            },
        }
    }
}

pub open spec fn entry_views(entries: Seq<Entry>) -> Seq<EntryView> {
    entries.map_values(|e: Entry| e@)
}

/// What listing a directory gave.
#[derive(Debug)]
pub enum Listing {
    /// There is no such directory.
    Missing,
    Failed(String),
    Entries(Vec<Entry>),
}

#[verifier::ext_equal]
pub enum ListingView {
    Missing,
    Failed(Seq<char>),
    Entries(Seq<EntryView>),
}

impl View for Listing {
    type V = ListingView;

    open spec fn view(&self) -> ListingView {
        match self {
            Listing::Missing => ListingView::Missing,
            Listing::Failed(detail) => ListingView::Failed(detail@),
            Listing::Entries(entries) => ListingView::Entries(entry_views(entries@)),
        }
    }
}

pub open spec fn listing_views(listings: Seq<Listing>) -> Seq<ListingView> {
    listings.map_values(|l: Listing| l@)
}

/// A search for the recovery files of one original.
#[derive(Debug)]
pub struct Search {
    /// The directories to list, in order.
    pub directories: Vec<NativePath>,
    /// The original, already resolved; none for an unnamed buffer.
    pub path: Option<NativePath>,
    pub cwd: NativePath,
    pub suffix: String,
}

#[verifier::ext_equal]
pub struct SearchView {
    pub directories: Seq<Seq<u8>>,
    pub path: Option<Seq<u8>>,
    pub cwd: Seq<u8>,
    pub suffix: Seq<char>,
}

impl View for Search {
    type V = SearchView;

    open spec fn view(&self) -> SearchView {
        SearchView {
            directories: path_views(self.directories@),
            path: path_option(self.path),
            cwd: self.cwd@,
            suffix: self.suffix@,
        }
    }
}

/// Whether a header is that of the original that is searched for. The saved path is taken as it
/// is: an alias that was changed since must not identify the file of its earlier target. An
/// unnamed buffer is found by its working directory.
pub open spec fn header_matches(header: HeaderView, path: Option<Seq<u8>>, cwd: Seq<u8>) -> bool {
    match (header.path, path) {
        (Some(original), Some(path)) => same_path(
            joined(header.cwd, original),
            joined(cwd, path),
        ),
        (None, None) => same_path(header.cwd, cwd),
        _ => false,
    }
}

/// The candidate that one entry gives.
pub open spec fn entry_candidates(search: SearchView, directory: Seq<u8>, entry: EntryView) -> Seq<
    Seq<u8>,
> {
    match entry {
        EntryView::File { name, header: Ok(header) } => if is_offered(name, search.suffix)
            && header_matches(header, search.path, search.cwd) {
            seq![joined(directory, name)]
        } else {
            Seq::empty()
        },
        _ => Seq::empty(),
    }
}

/// The warning that one entry gives.
pub open spec fn entry_warnings(search: SearchView, directory: Seq<u8>, entry: EntryView) -> Seq<
    (Seq<u8>, Seq<char>),
> {
    match entry {
        EntryView::Unreadable(detail) => seq![(directory, detail)],
        EntryView::File { name, header: Err(detail) } => if is_offered(name, search.suffix) {
            seq![(joined(directory, name), detail)]
        } else {
            Seq::empty()
        },
        _ => Seq::empty(),
    }
}

pub open spec fn entries_candidates(
    search: SearchView,
    directory: Seq<u8>,
    entries: Seq<EntryView>,
) -> Seq<Seq<u8>>
    decreases entries.len(),
{
    if entries.len() == 0 {
        Seq::empty()
    } else {
        entries_candidates(search, directory, entries.drop_last()) + entry_candidates(
            search,
            directory,
            entries.last(),
        )
    }
}

pub open spec fn entries_warnings(
    search: SearchView,
    directory: Seq<u8>,
    entries: Seq<EntryView>,
) -> Seq<(Seq<u8>, Seq<char>)>
    decreases entries.len(),
{
    if entries.len() == 0 {
        Seq::empty()
    } else {
        entries_warnings(search, directory, entries.drop_last()) + entry_warnings(
            search,
            directory,
            entries.last(),
        )
    }
}

pub open spec fn listing_candidates(
    search: SearchView,
    directory: Seq<u8>,
    listing: ListingView,
) -> Seq<Seq<u8>> {
    match listing {
        ListingView::Entries(entries) => entries_candidates(search, directory, entries),
        _ => Seq::empty(),
    }
}

/// A directory that does not exist is passed over; one that cannot be listed is reported.
pub open spec fn listing_warnings(
    search: SearchView,
    directory: Seq<u8>,
    listing: ListingView,
) -> Seq<(Seq<u8>, Seq<char>)> {
    match listing {
        ListingView::Missing => Seq::empty(),
        ListingView::Failed(detail) => seq![(directory, detail)],
        ListingView::Entries(entries) => entries_warnings(search, directory, entries),
    }
}

/// All candidates in the first `count` directories, as they are met.
pub open spec fn all_candidates(search: SearchView, listings: Seq<ListingView>, count: int) -> Seq<
    Seq<u8>,
>
    decreases count,
{
    if count <= 0 {
        Seq::empty()
    } else {
        all_candidates(search, listings, count - 1) + listing_candidates(
            search,
            search.directories[count - 1],
            listings[count - 1],
        )
    }
}

/// All warnings from the first `count` directories, as they are met.
pub open spec fn all_warnings(search: SearchView, listings: Seq<ListingView>, count: int) -> Seq<
    (Seq<u8>, Seq<char>),
>
    decreases count,
{
    if count <= 0 {
        Seq::empty()
    } else {
        all_warnings(search, listings, count - 1) + listing_warnings(
            search,
            search.directories[count - 1],
            listings[count - 1],
        )
    }
}

/// A path that no earlier one of the list is the same as.
#[verifier::opaque]
pub open spec fn first_of(paths: Seq<Seq<u8>>, path: Seq<u8>) -> bool {
    exists|i: int|
        {
            &&& 0 <= i < paths.len()
            &&& #[trigger] paths[i] == path
            &&& forall|j: int| 0 <= j < i ==> !same_path(#[trigger] paths[j], path)
        }
}

/// The paths of a list in order, each of them once, as it came first.
pub open spec fn ranks(ranked: Seq<Seq<u8>>, paths: Seq<Seq<u8>>) -> bool {
    &&& forall|i: int, j: int|
        0 <= i < j < ranked.len() ==> path_less(#[trigger] ranked[i], #[trigger] ranked[j])
    &&& forall|i: int| 0 <= i < ranked.len() ==> first_of(paths, #[trigger] ranked[i])
    &&& forall|i: int| 0 <= i < paths.len() ==> lists_path(ranked, #[trigger] paths[i])
}

/// What a search comes to.
pub open spec fn discovery_of(
    r: DiscoveryView,
    search: SearchView,
    listings: Seq<ListingView>,
) -> bool {
    let count = search.directories.len() as int;
    &&& ranks(r.candidates, all_candidates(search, listings, count))
    &&& r.warnings == all_warnings(search, listings, count)
}

fn matches_header(header: &Header, path: &Option<NativePath>, cwd: &NativePath) -> (r: bool)
    ensures
        r == header_matches(header@, path_option(*path), cwd@),
{
    let saved_cwd = NativePath::new(copy_bytes(header.cwd.units()));
    match (&header.path, path) {
        (Some(original), Some(path)) => {
            let original = NativePath::new(copy_bytes(original.units()));
            saved_cwd.join(&original).same(&cwd.join(path))
        },
        (None, None) => saved_cwd.same(cwd),
        _ => false,
    }
}

proof fn lemma_first_stays(paths: Seq<Seq<u8>>, path: Seq<u8>, added: Seq<u8>)
    requires
        first_of(paths, path),
    ensures
        first_of(paths.push(added), path),
{
    reveal(first_of);
    let after = paths.push(added);
    let j = choose|j: int|
        {
            &&& 0 <= j < paths.len()
            &&& #[trigger] paths[j] == path
            &&& forall|m: int| 0 <= m < j ==> !same_path(#[trigger] paths[m], path)
        };
    assert(after[j] == path);
    assert forall|m: int| 0 <= m < j implies !same_path(#[trigger] after[m], path) by {
        assert(after[m] == paths[m]);
    }
}

/// A path that is listed already changes nothing.
proof fn lemma_rank_listed(ranked: Seq<Seq<u8>>, paths: Seq<Seq<u8>>, path: Seq<u8>)
    requires
        ranks(ranked, paths),
        lists_path(ranked, path),
    ensures
        ranks(ranked, paths.push(path)),
{
    let after = paths.push(path);
    assert forall|i: int| 0 <= i < ranked.len() implies first_of(after, #[trigger] ranked[i]) by {
        lemma_first_stays(paths, ranked[i], path);
    }
    assert forall|i: int| 0 <= i < after.len() implies lists_path(ranked, #[trigger] after[i]) by {
        if i < paths.len() {
            assert(after[i] == paths[i]);
        }
    }
}

/// A path goes between the smaller and the greater ones.
proof fn lemma_order_inserted(ranked: Seq<Seq<u8>>, path: Seq<u8>, at: int)
    requires
        forall|i: int, j: int|
            0 <= i < j < ranked.len() ==> path_less(#[trigger] ranked[i], #[trigger] ranked[j]),
        0 <= at <= ranked.len(),
        forall|k: int| 0 <= k < at ==> path_less(#[trigger] ranked[k], path),
        at < ranked.len() ==> path_less(path, ranked[at]),
    ensures
        forall|i: int, j: int|
            0 <= i < j < ranked.len() + 1 ==> path_less(
                #[trigger] ranked.insert(at, path)[i],
                #[trigger] ranked.insert(at, path)[j],
            ),
{
    let now = ranked.insert(at, path);
    assert forall|i: int, j: int| 0 <= i < j < now.len() implies path_less(
        #[trigger] now[i],
        #[trigger] now[j],
    ) by {
        if i == at && j > at + 1 {
            law_path_order_is_transitive(path, ranked[at], ranked[j - 1]);
        }
    }
}

/// A path that is smaller or greater than every listed one is the first of its kind.
proof fn lemma_inserted_is_first(
    ranked: Seq<Seq<u8>>,
    paths: Seq<Seq<u8>>,
    path: Seq<u8>,
)
    requires
        forall|i: int| 0 <= i < paths.len() ==> lists_path(ranked, #[trigger] paths[i]),
        forall|k: int|
            0 <= k < ranked.len() ==> path_less(#[trigger] ranked[k], path) || path_less(
                path,
                ranked[k],
            ),
    ensures
        first_of(paths.push(path), path),
{
    reveal(first_of);
    let after = paths.push(path);
    let last = paths.len() as int;
    assert(after[last] == path);
    assert forall|j: int| 0 <= j < last implies !same_path(#[trigger] after[j], path) by {
        assert(after[j] == paths[j]);
        assert(lists_path(ranked, paths[j]));
        let k = choose|k: int| 0 <= k < ranked.len() && same_path(#[trigger] ranked[k], paths[j]);
        law_path_order_is_total(ranked[k], path);
        law_path_order_is_total(path, ranked[k]);
    }
}

proof fn lemma_still_listed(ranked: Seq<Seq<u8>>, added: Seq<u8>, at: int, path: Seq<u8>)
    requires
        0 <= at <= ranked.len(),
        lists_path(ranked, path) || added == path,
    ensures
        lists_path(ranked.insert(at, added), path),
{
    let now = ranked.insert(at, added);
    if added == path {
        assert(now[at] == path);
    } else {
        let m = choose|m: int| 0 <= m < ranked.len() && same_path(#[trigger] ranked[m], path);
        assert(now[if m < at {
            m
        } else {
            m + 1
        }] == ranked[m]);
    }
}

/// A path that is not listed is added in its place.
proof fn lemma_rank_inserted(ranked: Seq<Seq<u8>>, paths: Seq<Seq<u8>>, path: Seq<u8>, at: int)
    requires
        ranks(ranked, paths),
        0 <= at <= ranked.len(),
        forall|k: int| 0 <= k < at ==> path_less(#[trigger] ranked[k], path),
        at < ranked.len() ==> path_less(path, ranked[at]),
    ensures
        ranks(ranked.insert(at, path), paths.push(path)),
{
    let now = ranked.insert(at, path);
    let after = paths.push(path);
    lemma_order_inserted(ranked, path, at);
    assert forall|k: int| 0 <= k < ranked.len() implies path_less(#[trigger] ranked[k], path)
        || path_less(path, ranked[k]) by {
        if k > at {
            law_path_order_is_transitive(path, ranked[at], ranked[k]);
        }
    }
    lemma_inserted_is_first(ranked, paths, path);
    assert forall|k: int| 0 <= k < now.len() implies first_of(after, #[trigger] now[k]) by {
        if k != at {
            let old_place = if k < at {
                k
            } else {
                k - 1
            };
            assert(now[k] == ranked[old_place]);
            lemma_first_stays(paths, ranked[old_place], path);
        }
    }
    assert forall|i: int| 0 <= i < after.len() implies lists_path(now, #[trigger] after[i]) by {
        if i < paths.len() {
            assert(after[i] == paths[i]);
        }
        lemma_still_listed(ranked, path, at, after[i]);
    }
}

/// Adds a path in its place, unless it is there.
fn rank(ranked: &mut Vec<NativePath>, path: NativePath, Ghost(paths): Ghost<Seq<Seq<u8>>>)
    requires
        ranks(path_views(old(ranked)@), paths),
    ensures
        ranks(path_views(final(ranked)@), paths.push(path@)),
{
    let ghost before = path_views(ranked@);
    let mut i: usize = 0;
    while i < ranked.len() && ranked[i].before(&path)
        invariant
            i <= ranked@.len(),
            before == path_views(ranked@),
            forall|k: int| 0 <= k < i ==> path_less(#[trigger] before[k], path@),
        decreases ranked@.len() - i,
    {
        assert(before[i as int] == ranked@[i as int]@);
        i = i + 1;
    }
    if i < ranked.len() {
        assert(before[i as int] == ranked@[i as int]@);
        if ranked[i].same(&path) {
            proof {
                lemma_rank_listed(before, paths, path@);
            }
            return;
        }
        proof {
            law_path_order_is_total(before[i as int], path@);
        }
    }
    proof {
        lemma_rank_inserted(before, paths, path@, i as int);
    }
    ranked.insert(i, path);
    assert(path_views(ranked@) =~= before.insert(i as int, path@));
}

/// Why a search cannot start.
pub open spec fn discover_fault(config: ConfigView, cwd: Seq<u8>, reachable: bool) -> Option<
    DirectoriesError,
> {
    if !is_absolute(cwd) {
        Some(DirectoriesError::RelativeCwd)
    } else {
        directories_fault(config, cwd, reachable)
    }
}

/// The outcome of starting a search.
pub open spec fn discover_outcome(
    r: Result<Search, DirectoriesError>,
    config: ConfigView,
    expanded: Seq<Seq<u8>>,
    path: Option<Seq<u8>>,
    cwd: Seq<u8>,
    reachable: bool,
) -> bool {
    match r {
        Ok(search) => {
            &&& discover_fault(config, cwd, reachable) is None
            &&& search@ == SearchView {
                directories: directories_of(config, expanded, path, cwd),
                path,
                cwd,
                suffix: config.suffix,
            }
        },
        Err(e) => discover_fault(config, cwd, reachable) == Some(e),
    }
}

/// Starts a search, given whether the clock can represent the deadline of the configured update
/// interval.
pub fn discover_with(
    config: &Config,
    expanded: &Vec<NativePath>,
    path: Option<NativePath>,
    cwd: &NativePath,
    reachable: bool,
) -> (r: Result<Search, DirectoriesError>)
    requires
        expanded@.len() == config.directories@.len(),
    ensures
        discover_outcome(r, config@, path_views(expanded@), path_option(path), cwd@, reachable),
{
    if !cwd.is_absolute() {
        return Err(DirectoriesError::RelativeCwd);
    }
    match directories_with(config, expanded, &path, cwd, reachable) {
        Ok(directories) => Ok(
            Search { directories, path, cwd: cwd.clone(), suffix: config.suffix.clone() },
        ),
        Err(e) => Err(e),
    }
}

/// Starts a search of every configured directory, also where automatic recovery is disabled. The
/// original is already resolved. `expanded` holds the configured directories with their `~`
/// expanded.
pub fn discover(
    config: &Config,
    expanded: &Vec<NativePath>,
    path: Option<NativePath>,
    cwd: &NativePath,
) -> (r: Result<Search, DirectoriesError>)
    requires
        expanded@.len() == config.directories@.len(),
    ensures
        exists|reachable: bool| #[trigger]
            clock_answers(config.update_time, reachable) && discover_outcome(
                r,
                config@,
                path_views(expanded@),
                path_option(path),
                cwd@,
                reachable,
            ),
{
    let reachable = clock_reaches(config.update_time);
    discover_with(config, expanded, path, cwd, reachable)
}

impl Search {
    /// Whether the header of a directory entry of this name is to be read.
    pub fn offers(&self, name: &[u8]) -> (r: bool)
        ensures
            r == is_offered(name@, self@.suffix),
    {
        offers(name, self.suffix.as_str())
    }

    /// What the listings of the directories, in their order, come to.
    pub fn conclude(&self, listings: Vec<Listing>) -> (r: Discovery)
        requires
            listings@.len() == self.directories@.len(),
        ensures
            discovery_of(r@, self@, listing_views(listings@)),
    {
        let ghost views = listing_views(listings@);
        let mut found = Discovery::default();
        let mut i: usize = 0;
        while i < listings.len()
            invariant
                i <= listings@.len(),
                listings@.len() == self.directories@.len(),
                views == listing_views(listings@),
                ranks(path_views(found.candidates@), all_candidates(self@, views, i as int)),
                warning_views(found.warnings@) == all_warnings(self@, views, i as int),
            decreases listings@.len() - i,
        {
            let directory = &self.directories[i];
            assert(self@.directories[i as int] == directory@);
            assert(views[i as int] == listings@[i as int]@);
            match &listings[i] {
                Listing::Missing => {
                    assert(all_warnings(self@, views, i + 1) =~= all_warnings(
                        self@,
                        views,
                        i as int,
                    ));
                    assert(all_candidates(self@, views, i + 1) =~= all_candidates(
                        self@,
                        views,
                        i as int,
                    ));
                },
                Listing::Failed(detail) => {
                    self.warn(&mut found, directory.clone(), detail);
                    assert(all_candidates(self@, views, i + 1) =~= all_candidates(
                        self@,
                        views,
                        i as int,
                    ));
                },
                Listing::Entries(entries) => {
                    self.take_entries(
                        &mut found,
                        directory,
                        entries,
                        Ghost(all_candidates(self@, views, i as int)),
                    );
                },
            }
            i = i + 1;
        }
        found
    }

    fn warn(&self, found: &mut Discovery, path: NativePath, detail: &String)
        ensures
            final(found)@.candidates == old(found)@.candidates,
            final(found)@.warnings == old(found)@.warnings + seq![(path@, detail@)],
    {
        found.warnings.push((path, detail.clone()));
        assert(found@.warnings =~= old(found)@.warnings + seq![(path@, detail@)]);
    }

    fn take_entries(
        &self,
        found: &mut Discovery,
        directory: &NativePath,
        entries: &Vec<Entry>,
        Ghost(met): Ghost<Seq<Seq<u8>>>,
    )
        requires
            ranks(old(found)@.candidates, met),
        ensures
            ranks(
                final(found)@.candidates,
                met + entries_candidates(self@, directory@, entry_views(entries@)),
            ),
            final(found)@.warnings == old(found)@.warnings + entries_warnings(
                self@,
                directory@,
                entry_views(entries@),
            ),
    {
        let ghost views = entry_views(entries@);
        let mut k: usize = 0;
        proof {
            assert(met + entries_candidates(self@, directory@, views.take(0)) =~= met);
            assert(found@.warnings + entries_warnings(self@, directory@, views.take(0))
                =~= found@.warnings);
        }
        while k < entries.len()
            invariant
                k <= entries@.len(),
                views == entry_views(entries@),
                ranks(
                    found@.candidates,
                    met + entries_candidates(self@, directory@, views.take(k as int)),
                ),
                found@.warnings == old(found)@.warnings + entries_warnings(
                    self@,
                    directory@,
                    views.take(k as int),
                ),
            decreases entries@.len() - k,
        {
            let ghost so_far = met + entries_candidates(self@, directory@, views.take(k as int));
            let ghost warned = entries_warnings(self@, directory@, views.take(k as int));
            proof {
                assert(views[k as int] == entries@[k as int]@);
                assert(views.take(k + 1).drop_last() =~= views.take(k as int));
                assert(views.take(k + 1).last() == views[k as int]);
                assert(met + entries_candidates(self@, directory@, views.take(k + 1)) =~= so_far
                    + entry_candidates(self@, directory@, views[k as int]));
                assert(old(found)@.warnings + entries_warnings(
                    self@,
                    directory@,
                    views.take(k + 1),
                ) =~= (old(found)@.warnings + warned) + entry_warnings(
                    self@,
                    directory@,
                    views[k as int],
                ));
            }
            self.take_entry(found, directory, &entries[k], Ghost(so_far));
            k = k + 1;
        }
        assert(views.take(k as int) =~= views);
    }

    fn take_entry(
        &self,
        found: &mut Discovery,
        directory: &NativePath,
        entry: &Entry,
        Ghost(met): Ghost<Seq<Seq<u8>>>,
    )
        requires
            ranks(old(found)@.candidates, met),
        ensures
            ranks(final(found)@.candidates, met + entry_candidates(self@, directory@, entry@)),
            final(found)@.warnings == old(found)@.warnings + entry_warnings(
                self@,
                directory@,
                entry@,
            ),
    {
        proof {
            assert(met + Seq::<Seq<u8>>::empty() =~= met);
            assert(found@.warnings + Seq::<(Seq<u8>, Seq<char>)>::empty() =~= found@.warnings);
        }
        match entry {
            Entry::Unreadable(detail) => self.warn(found, directory.clone(), detail),
            Entry::File { name, header } => {
                if !self.offers(name.as_slice()) {
                    return;
                }
                let candidate = directory.join(
                    &NativePath::new(copy_bytes(name.as_slice())),
                );
                match header {
                    Ok(header) => {
                        if matches_header(header, &self.path, &self.cwd) {
                            assert(met + seq![candidate@] =~= met.push(candidate@));
                            rank(&mut found.candidates, candidate, Ghost(met));
                        }
                    },
                    Err(detail) => self.warn(found, candidate, detail),
                }
            },
        }
    }
}

proof fn lemma_listed_entry(
    search: SearchView,
    directory: Seq<u8>,
    entries: Seq<EntryView>,
    e: int,
)
    requires
        0 <= e < entries.len(),
    ensures
        forall|x: Seq<u8>|
            entry_candidates(search, directory, entries[e]).contains(x)
                ==> entries_candidates(search, directory, entries).contains(x),
        forall|x: (Seq<u8>, Seq<char>)|
            entry_warnings(search, directory, entries[e]).contains(x)
                ==> entries_warnings(search, directory, entries).contains(x),
    decreases entries.len(),
{
    let front = entries.drop_last();
    let c = entries_candidates(search, directory, front);
    let last = entry_candidates(search, directory, entries.last());
    let w = entries_warnings(search, directory, front);
    let warned = entry_warnings(search, directory, entries.last());
    if e < front.len() {
        lemma_listed_entry(search, directory, front, e);
        assert(front[e] == entries[e]);
    }
    assert forall|x: Seq<u8>|
        entry_candidates(search, directory, entries[e]).contains(x) implies entries_candidates(
        search,
        directory,
        entries,
    ).contains(x) by {
        lemma_in_sum(c, last, x);
    }
    assert forall|x: (Seq<u8>, Seq<char>)|
        entry_warnings(search, directory, entries[e]).contains(x) implies entries_warnings(
        search,
        directory,
        entries,
    ).contains(x) by {
        lemma_in_sum(w, warned, x);
    }
}

proof fn lemma_in_sum<A>(a: Seq<A>, b: Seq<A>, x: A)
    ensures
        (a + b).contains(x) <==> a.contains(x) || b.contains(x),
{
    if a.contains(x) {
        let i = choose|i: int| 0 <= i < a.len() && a[i] == x;
        assert((a + b)[i] == x);
    }
    if b.contains(x) {
        let i = choose|i: int| 0 <= i < b.len() && b[i] == x;
        assert((a + b)[a.len() + i] == x);
    }
}

proof fn lemma_listed_directory(search: SearchView, listings: Seq<ListingView>, count: int, d: int)
    requires
        0 <= d < count,
    ensures
        forall|x: Seq<u8>|
            listing_candidates(search, search.directories[d], listings[d]).contains(x)
                ==> all_candidates(search, listings, count).contains(x),
        forall|x: (Seq<u8>, Seq<char>)|
            listing_warnings(search, search.directories[d], listings[d]).contains(x)
                ==> all_warnings(search, listings, count).contains(x),
    decreases count,
{
    let last = count - 1;
    if d < last {
        lemma_listed_directory(search, listings, last, d);
    }
    assert forall|x: Seq<u8>|
        listing_candidates(search, search.directories[d], listings[d]).contains(x) implies
        all_candidates(search, listings, count).contains(x) by {
        lemma_in_sum(
            all_candidates(search, listings, last),
            listing_candidates(search, search.directories[last], listings[last]),
            x,
        );
    }
    assert forall|x: (Seq<u8>, Seq<char>)|
        listing_warnings(search, search.directories[d], listings[d]).contains(x) implies
        all_warnings(search, listings, count).contains(x) by {
        lemma_in_sum(
            all_warnings(search, listings, last),
            listing_warnings(search, search.directories[last], listings[last]),
            x,
        );
    }
}

/// Law: nothing is hidden. Every file of a listed directory whose name is offered and whose header
/// is that of the original is a candidate, and every one whose header cannot be read is reported,
/// whatever the other files are.
pub proof fn law_every_file_is_found_or_reported(
    r: DiscoveryView,
    search: SearchView,
    listings: Seq<ListingView>,
    d: int,
    e: int,
)
    requires
        discovery_of(r, search, listings),
        listings.len() == search.directories.len(),
        0 <= d < listings.len(),
        listings[d] is Entries,
        0 <= e < listings[d]->Entries_0.len(),
    ensures
        listings[d]->Entries_0[e] matches EntryView::File { name, header } ==> (is_offered(
            name,
            search.suffix,
        ) ==> match header {
            Ok(h) => header_matches(h, search.path, search.cwd) ==> lists_path(
                r.candidates,
                joined(search.directories[d], name),
            ),
            Err(detail) => r.warnings.contains((joined(search.directories[d], name), detail)),
        }),
{
    let directory = search.directories[d];
    let entries = listings[d]->Entries_0;
    let count = listings.len() as int;
    lemma_listed_entry(search, directory, entries, e);
    lemma_listed_directory(search, listings, count, d);
    if let EntryView::File { name, header } = entries[e] {
        if is_offered(name, search.suffix) {
            let path = joined(directory, name);
            match header {
                Ok(h) => {
                    if header_matches(h, search.path, search.cwd) {
                        assert(entry_candidates(search, directory, entries[e])[0] == path);
                        let all = all_candidates(search, listings, count);
                        assert(all.contains(path));
                        let i = choose|i: int| 0 <= i < all.len() && all[i] == path;
                        assert(lists_path(r.candidates, all[i]));
                    }
                },
                Err(detail) => {
                    assert(entry_warnings(search, directory, entries[e])[0] == (path, detail));
                },
            }
        }
    }
}

/// A candidate of the entries is one of an offered file that matches.
pub open spec fn found_in(
    search: SearchView,
    directory: Seq<u8>,
    entries: Seq<EntryView>,
    path: Seq<u8>,
) -> bool {
    exists|e: int|
        0 <= e < entries.len() && entry_candidates(
            search,
            directory,
            #[trigger] entries[e],
        ).contains(path)
}

proof fn lemma_found_in(
    search: SearchView,
    directory: Seq<u8>,
    entries: Seq<EntryView>,
    path: Seq<u8>,
)
    requires
        entries_candidates(search, directory, entries).contains(path),
    ensures
        found_in(search, directory, entries, path),
    decreases entries.len(),
{
    if entries.len() > 0 {
        let front = entries.drop_last();
        lemma_in_sum(
            entries_candidates(search, directory, front),
            entry_candidates(search, directory, entries.last()),
            path,
        );
        if entries_candidates(search, directory, front).contains(path) {
            lemma_found_in(search, directory, front, path);
            let e = choose|e: int|
                0 <= e < front.len() && entry_candidates(
                    search,
                    directory,
                    #[trigger] front[e],
                ).contains(path);
            assert(entries[e] == front[e]);
        } else {
            assert(entries[entries.len() - 1] == entries.last());
        }
    }
}

proof fn lemma_found_somewhere(
    search: SearchView,
    listings: Seq<ListingView>,
    count: int,
    path: Seq<u8>,
)
    requires
        all_candidates(search, listings, count).contains(path),
    ensures
        exists|d: int|
            0 <= d < count && (#[trigger] listings[d]) is Entries && found_in(
                search,
                search.directories[d],
                listings[d]->Entries_0,
                path,
            ),
    decreases count,
{
    if count > 0 {
        let last = count - 1;
        let here = listing_candidates(search, search.directories[last], listings[last]);
        lemma_in_sum(all_candidates(search, listings, last), here, path);
        if here.contains(path) {
            lemma_found_in(
                search,
                search.directories[last],
                listings[last]->Entries_0,
                path,
            );
        } else {
            lemma_found_somewhere(search, listings, last, path);
        }
    }
}

/// Law: a candidate is only what was listed: a file of one of the directories whose name is
/// offered and whose header is that of the original.
pub proof fn law_candidates_match(
    r: DiscoveryView,
    search: SearchView,
    listings: Seq<ListingView>,
    k: int,
)
    requires
        discovery_of(r, search, listings),
        listings.len() == search.directories.len(),
        0 <= k < r.candidates.len(),
    ensures
        exists|d: int|
            0 <= d < listings.len() && (#[trigger] listings[d]) is Entries && found_in(
                search,
                search.directories[d],
                listings[d]->Entries_0,
                r.candidates[k],
            ),
{
    reveal(first_of);
    let count = listings.len() as int;
    let all = all_candidates(search, listings, count);
    assert(first_of(all, r.candidates[k]));
    assert(all.contains(r.candidates[k]));
    lemma_found_somewhere(search, listings, count, r.candidates[k]);
}

/// Law: a search for the original of a snapshot matches the header that was written for it: for a
/// named original by its resolved path, from whatever working directory, and for an unnamed
/// buffer by its working directory.
pub proof fn law_written_header_matches(
    s: SnapshotView,
    facts: RecoveryMetadata,
    cwd: Seq<u8>,
)
    requires
        s.path matches Some(path) ==> is_absolute(path),
        s.path is None ==> same_path(s.cwd, cwd),
    ensures
        header_matches(header_of(s, facts), s.path, cwd),
{
}

proof fn lemma_ranked_alike(a: Seq<Seq<u8>>, b: Seq<Seq<u8>>)
    requires
        forall|i: int, j: int|
            0 <= i < j < a.len() ==> path_less(#[trigger] a[i], #[trigger] a[j]),
        forall|i: int, j: int|
            0 <= i < j < b.len() ==> path_less(#[trigger] b[i], #[trigger] b[j]),
        forall|i: int| 0 <= i < a.len() ==> b.contains(#[trigger] a[i]),
        forall|i: int| 0 <= i < b.len() ==> a.contains(#[trigger] b[i]),
    ensures
        a == b,
    decreases a.len(),
{
    if a.len() == 0 {
        if b.len() > 0 {
            assert(a.contains(b[0]));
        }
        assert(a =~= b);
    } else {
        let x = a.last();
        assert(b.contains(a[a.len() - 1]));
        let y = b.last();
        assert(a.contains(b[b.len() - 1]));
        let k = choose|k: int| 0 <= k < b.len() && b[k] == x;
        let m = choose|m: int| 0 <= m < a.len() && a[m] == y;
        law_path_order_is_total(x, y);
        law_path_order_is_total(y, x);
        law_path_order_is_total(x, x);
        if k < b.len() - 1 {
            assert(path_less(b[k], b[b.len() - 1]));
            if m < a.len() - 1 {
                assert(path_less(a[m], a[a.len() - 1]));
            }
        }
        assert(x == y);
        let front = a.drop_last();
        let other = b.drop_last();
        assert forall|i: int| 0 <= i < front.len() implies other.contains(#[trigger] front[i]) by {
            assert(b.contains(a[i]));
            let j = choose|j: int| 0 <= j < b.len() && b[j] == a[i];
            assert(path_less(a[i], a[a.len() - 1]));
            law_path_order_is_total(a[i], x);
            assert(other[j] == front[i]);
        }
        assert forall|i: int| 0 <= i < other.len() implies front.contains(#[trigger] other[i]) by {
            assert(a.contains(b[i]));
            let j = choose|j: int| 0 <= j < a.len() && a[j] == b[i];
            assert(path_less(b[i], b[b.len() - 1]));
            law_path_order_is_total(b[i], y);
            assert(front[j] == other[i]);
        }
        lemma_ranked_alike(front, other);
        assert(a =~= front.push(x));
        assert(b =~= other.push(y));
    }
}

/// Of two paths that are each the first of their kind in a list, the same path is the same units.
proof fn lemma_first_is_unique(paths: Seq<Seq<u8>>, a: Seq<u8>, b: Seq<u8>)
    requires
        first_of(paths, a),
        first_of(paths, b),
        same_path(a, b),
    ensures
        a == b,
{
    reveal(first_of);
    let i = choose|i: int|
        {
            &&& 0 <= i < paths.len()
            &&& #[trigger] paths[i] == a
            &&& forall|j: int| 0 <= j < i ==> !same_path(#[trigger] paths[j], a)
        };
    let k = choose|k: int|
        {
            &&& 0 <= k < paths.len()
            &&& #[trigger] paths[k] == b
            &&& forall|j: int| 0 <= j < k ==> !same_path(#[trigger] paths[j], b)
        };
    if i < k {
        assert(!same_path(paths[i], b));
    } else if k < i {
        assert(!same_path(paths[k], a));
    }
}

proof fn lemma_first_is_listed(paths: Seq<Seq<u8>>, path: Seq<u8>, ranked: Seq<Seq<u8>>)
    requires
        first_of(paths, path),
        forall|i: int| 0 <= i < paths.len() ==> lists_path(ranked, #[trigger] paths[i]),
    ensures
        lists_path(ranked, path),
{
    reveal(first_of);
    let at = choose|at: int|
        {
            &&& 0 <= at < paths.len()
            &&& #[trigger] paths[at] == path
            &&& forall|j: int| 0 <= j < at ==> !same_path(#[trigger] paths[j], path)
        };
    assert(lists_path(ranked, paths[at]));
}

proof fn lemma_ranked_is_listed(a: Seq<Seq<u8>>, b: Seq<Seq<u8>>, paths: Seq<Seq<u8>>, i: int)
    requires
        forall|k: int| 0 <= k < a.len() ==> first_of(paths, #[trigger] a[k]),
        forall|k: int| 0 <= k < b.len() ==> first_of(paths, #[trigger] b[k]),
        lists_path(b, a[i]),
        0 <= i < a.len(),
    ensures
        b.contains(a[i]),
{
    let k = choose|k: int| 0 <= k < b.len() && same_path(#[trigger] b[k], a[i]);
    assert(first_of(paths, a[i]));
    assert(first_of(paths, b[k]));
    lemma_first_is_unique(paths, b[k], a[i]);
}

proof fn lemma_all_listed(a: Seq<Seq<u8>>, b: Seq<Seq<u8>>, paths: Seq<Seq<u8>>)
    requires
        ranks(a, paths),
        ranks(b, paths),
    ensures
        forall|i: int| 0 <= i < a.len() ==> b.contains(#[trigger] a[i]),
{
    assert forall|i: int| 0 <= i < a.len() implies b.contains(#[trigger] a[i]) by {
        assert(lists_path(b, a[i])) by {
            lemma_first_is_listed(paths, a[i], b);
        }
        lemma_ranked_is_listed(a, b, paths, i);
    }
}

/// Law: the candidates of a list of paths are fixed: their order, and the form of each.
pub proof fn law_ranking_is_unique(a: Seq<Seq<u8>>, b: Seq<Seq<u8>>, paths: Seq<Seq<u8>>)
    requires
        ranks(a, paths),
        ranks(b, paths),
    ensures
        a == b,
{
    lemma_all_listed(a, b, paths);
    lemma_all_listed(b, a, paths);
    lemma_ranked_alike(a, b);
}

/// Law: what is found depends on the directories and the suffix alone. Searches by settings that
/// differ otherwise, also in whether recovery is enabled, give the same candidates and warnings
/// for the same listings.
pub proof fn law_other_settings_do_not_change_what_is_found(
    first: Search,
    second: Search,
    a: ConfigView,
    b: ConfigView,
    expanded: Seq<Seq<u8>>,
    path: Option<Seq<u8>>,
    cwd: Seq<u8>,
    listings: Seq<ListingView>,
    found: DiscoveryView,
    again: DiscoveryView,
)
    requires
        a.directories == b.directories,
        a.suffix == b.suffix,
        discover_outcome(Ok(first), a, expanded, path, cwd, true),
        discover_outcome(Ok(second), b, expanded, path, cwd, true),
        discovery_of(found, first@, listings),
        discovery_of(again, second@, listings),
    ensures
        first@ == second@,
        found == again,
{
    let count = first@.directories.len() as int;
    law_ranking_is_unique(
        found.candidates,
        again.candidates,
        all_candidates(first@, listings, count),
    );
}

/// Law: a header matches exactly the original that is searched for. A named one is matched only if
/// the saved path, read against the saved working directory, is the same path as the requested
/// one, read against the requested working directory: the last names alone never match. An
/// unnamed buffer is matched only by the same working directory, and never by a named one.
pub proof fn law_header_matches_only_its_original(
    header: HeaderView,
    path: Option<Seq<u8>>,
    cwd: Seq<u8>,
)
    requires
        is_absolute(header.cwd),
        is_absolute(cwd),
    ensures
        ({
            let saved = match header.path {
                Some(p) => if is_absolute(p) {
                    components(p)
                } else {
                    components(header.cwd) + pieces(p)
                },
                None => components(header.cwd),
            };
            let sought = match path {
                Some(p) => if is_absolute(p) {
                    components(p)
                } else {
                    components(cwd) + pieces(p)
                },
                None => components(cwd),
            };
            header_matches(header, path, cwd) <==> (header.path is Some <==> path is Some) && saved
                == sought
        }),
{
    if let Some(p) = header.path {
        law_join_components(header.cwd, p);
    }
    if let Some(p) = path {
        law_join_components(cwd, p);
    }
}

/// Law: of two originals that are not the same path a file belongs to at most one, and nothing but
/// the saved path and working directory of a header counts.
pub proof fn law_file_belongs_to_one_original(
    header: HeaderView,
    other: HeaderView,
    a: Option<Seq<u8>>,
    b: Option<Seq<u8>>,
    cwd: Seq<u8>,
)
    requires
        is_absolute(cwd),
        a is Some ==> is_absolute(a->0),
        b is Some ==> is_absolute(b->0),
        header_matches(header, a, cwd),
        header_matches(header, b, cwd),
    ensures
        a is Some <==> b is Some,
        a is Some ==> components(a->0) == components(b->0),
        other.path == header.path && other.cwd == header.cwd ==> header_matches(other, a, cwd),
{
}

/// Law: what one entry of a directory gives. An entry that cannot be read is reported with the
/// directory. A file whose name is not offered gives nothing. One that is offered is a candidate
/// exactly when its header matches, and is reported with its own path where the header cannot be
/// read.
pub proof fn law_what_an_entry_gives(search: SearchView, directory: Seq<u8>, entry: EntryView)
    ensures
        ({
            let candidates = entry_candidates(search, directory, entry);
            let warnings = entry_warnings(search, directory, entry);
            match entry {
                EntryView::Unreadable(detail) => candidates.len() == 0 && warnings == seq![
                    (directory, detail),
                ],
                EntryView::File { name, header } => {
                    let path = joined(directory, name);
                    let offered = is_offered(name, search.suffix);
                    &&& !offered ==> candidates.len() == 0 && warnings.len() == 0
                    &&& offered && header is Err ==> candidates.len() == 0 && warnings == seq![
                        (path, header->Err_0),
                    ]
                    &&& offered && header is Ok ==> warnings.len() == 0
                    &&& offered && header is Ok && header_matches(
                        header->Ok_0,
                        search.path,
                        search.cwd,
                    ) ==> candidates == seq![path]
                    &&& offered && header is Ok && !header_matches(
                        header->Ok_0,
                        search.path,
                        search.cwd,
                    ) ==> candidates.len() == 0
                },
            }
        }),
{
}

/// Law: what the entries of a directory give adds up in their order, and so does what the
/// directories give. A directory that does not exist gives nothing, and one that cannot be listed
/// is reported.
pub proof fn law_listings_add_up(
    search: SearchView,
    directory: Seq<u8>,
    entries: Seq<EntryView>,
    entry: EntryView,
    detail: Seq<char>,
    listings: Seq<ListingView>,
    count: int,
)
    requires
        count > 0,
    ensures
        entries_candidates(search, directory, Seq::empty()).len() == 0,
        entries_warnings(search, directory, Seq::empty()).len() == 0,
        entries_candidates(search, directory, entries.push(entry)) == entries_candidates(
            search,
            directory,
            entries,
        ) + entry_candidates(search, directory, entry),
        entries_warnings(search, directory, entries.push(entry)) == entries_warnings(
            search,
            directory,
            entries,
        ) + entry_warnings(search, directory, entry),
        listing_candidates(search, directory, ListingView::Missing).len() == 0,
        listing_warnings(search, directory, ListingView::Missing).len() == 0,
        listing_candidates(search, directory, ListingView::Failed(detail)).len() == 0,
        listing_warnings(search, directory, ListingView::Failed(detail)) == seq![
            (directory, detail),
        ],
        listing_candidates(search, directory, ListingView::Entries(entries)) == entries_candidates(
            search,
            directory,
            entries,
        ),
        listing_warnings(search, directory, ListingView::Entries(entries)) == entries_warnings(
            search,
            directory,
            entries,
        ),
        all_candidates(search, listings, 0).len() == 0,
        all_warnings(search, listings, 0).len() == 0,
        all_candidates(search, listings, count) == all_candidates(search, listings, count - 1)
            + listing_candidates(search, search.directories[count - 1], listings[count - 1]),
        all_warnings(search, listings, count) == all_warnings(search, listings, count - 1)
            + listing_warnings(search, search.directories[count - 1], listings[count - 1]),
{
    assert(entries.push(entry).drop_last() =~= entries);
}

/// Law: the candidates of a search are listed in the order of paths, no path twice, and they are
/// all that the listings give and nothing else. The warnings are all that the listings give, in
/// the order in which they are met.
pub proof fn law_result_of_a_search(
    r: DiscoveryView,
    search: SearchView,
    listings: Seq<ListingView>,
)
    requires
        discovery_of(r, search, listings),
    ensures
        ({
            let met = all_candidates(search, listings, search.directories.len() as int);
            &&& forall|i: int, j: int|
                0 <= i < j < r.candidates.len() ==> path_less(
                    #[trigger] r.candidates[i],
                    #[trigger] r.candidates[j],
                ) && components(r.candidates[i]) != components(r.candidates[j])
            &&& forall|i: int|
                0 <= i < r.candidates.len() ==> met.contains(#[trigger] r.candidates[i])
            &&& forall|k: int| 0 <= k < met.len() ==> lists_path(r.candidates, #[trigger] met[k])
            &&& r.warnings == all_warnings(search, listings, search.directories.len() as int)
        }),
{
    let met = all_candidates(search, listings, search.directories.len() as int);
    assert forall|i: int, j: int| 0 <= i < j < r.candidates.len() implies path_less(
        #[trigger] r.candidates[i],
        #[trigger] r.candidates[j],
    ) && components(r.candidates[i]) != components(r.candidates[j]) by {
        law_path_order_is_total(r.candidates[i], r.candidates[j]);
    }
    assert forall|i: int| 0 <= i < r.candidates.len() implies met.contains(
        #[trigger] r.candidates[i],
    ) by {
        reveal(first_of);
        assert(first_of(met, r.candidates[i]));
    }
}

/// Law: a search starts exactly with an absolute working directory and a valid configuration,
/// also where recovery is disabled. It is for the original and the working directory that are
/// given, in the directories of the configuration and by its suffix.
pub proof fn law_start_of_a_search(
    r: Result<Search, DirectoriesError>,
    config: ConfigView,
    expanded: Seq<Seq<u8>>,
    path: Option<Seq<u8>>,
    cwd: Seq<u8>,
    reachable: bool,
)
    requires
        discover_outcome(r, config, expanded, path, cwd, reachable),
    ensures
        r is Ok <==> is_absolute(cwd) && config_fault(config, reachable) is None,
        r matches Ok(search) ==> {
            &&& search@.path == path
            &&& search@.cwd == cwd
            &&& search@.suffix == config.suffix
            &&& search@.directories == directories_of(config, expanded, path, cwd)
        },
        !is_absolute(cwd) ==> (r matches Err(e) && e == DirectoriesError::RelativeCwd),
        is_absolute(cwd) && config_fault(config, reachable) is Some ==> (r matches Err(e) && e
            == DirectoriesError::Config(config_fault(config, reachable)->0)),
{
}

/// Law: of several spellings of one path the one that was met first is listed.
pub proof fn law_first_spelling_is_listed(
    r: DiscoveryView,
    search: SearchView,
    listings: Seq<ListingView>,
    i: int,
)
    requires
        discovery_of(r, search, listings),
        0 <= i < r.candidates.len(),
    ensures
        ({
            let met = all_candidates(search, listings, search.directories.len() as int);
            exists|k: int|
                {
                    &&& 0 <= k < met.len()
                    &&& #[trigger] met[k] == r.candidates[i]
                    &&& forall|j: int|
                        0 <= j < k ==> components(#[trigger] met[j]) != components(r.candidates[i])
                }
        }),
{
    let met = all_candidates(search, listings, search.directories.len() as int);
    let path = r.candidates[i];
    assert(first_of(met, path));
    reveal(first_of);
    let k = choose|k: int|
        {
            &&& 0 <= k < met.len()
            &&& #[trigger] met[k] == path
            &&& forall|j: int| 0 <= j < k ==> !same_path(#[trigger] met[j], path)
        };
    assert forall|j: int| 0 <= j < k implies components(#[trigger] met[j]) != components(path) by {
        assert(!same_path(met[j], path));
    }
}

/// Law: a header is compared by the paths that it and the search mean, each read against its own
/// working directory, also where the saved one is not absolute.
pub proof fn law_headers_are_compared_by_path(
    header: HeaderView,
    path: Option<Seq<u8>>,
    cwd: Seq<u8>,
)
    ensures
        header.path is Some && path is Some ==> (header_matches(header, path, cwd) <==> components(
            joined(header.cwd, header.path->0),
        ) == components(joined(cwd, path->0))),
        header.path is None && path is None ==> (header_matches(header, path, cwd) <==> components(
            header.cwd,
        ) == components(cwd)),
        (header.path is Some) != (path is Some) ==> !header_matches(header, path, cwd),
{
}

} // verus!
