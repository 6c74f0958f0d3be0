//! The directories in which recovery files are looked for and created.

use vstd::prelude::*;
use vstd::utf8::encode_utf8;

use crate::config::{clock_answers, clock_reaches, config_fault, Config, ConfigError, ConfigView};
use crate::paths::{
    components, is_absolute, joined, law_components_are_the_names, law_join_components,
    law_parent_drops_last_component, lemma_parent_is_prefix, list_has, lists_path, parent_of,
    path_option, path_views, pieces, same_path, Component, NativePath,
};

verus! {

/// Why no directories can be named.
#[derive(Debug, Clone, Copy, PartialEq, Eq, Structural)]
pub enum DirectoriesError {
    Config(ConfigError),
    RelativeCwd,
}

/// The directory that `.` stands for: that of the original, or the working directory.
pub open spec fn original_directory(path: Option<Seq<u8>>, cwd: Seq<u8>) -> Seq<u8> {
    match path {
        Some(p) => match parent_of(joined(cwd, p)) {
            Some(parent) => parent,
            None => cwd,
        },
        None => cwd,
    }
}

/// What one configured entry means; `expanded` is the entry with its `~` expanded.
pub open spec fn directory_of(
    entry: Seq<u8>,
    expanded: Seq<u8>,
    path: Option<Seq<u8>>,
    cwd: Seq<u8>,
) -> Seq<u8> {
    if same_path(entry, encode_utf8("."@)) {
        original_directory(path, cwd)
    } else {
        joined(cwd, expanded)
    }
}

/// Every path once, where it comes first.
pub open spec fn distinct(paths: Seq<Seq<u8>>) -> Seq<Seq<u8>>
    decreases paths.len(),
{
    if paths.len() == 0 {
        Seq::empty()
    } else {
        let kept = distinct(paths.drop_last());
        if lists_path(kept, paths.last()) {
            kept
        } else {
            kept.push(paths.last())
        }
    }
}

/// What every configured entry means, in order.
pub open spec fn entries_of(
    entries: Seq<Seq<u8>>,
    expanded: Seq<Seq<u8>>,
    path: Option<Seq<u8>>,
    cwd: Seq<u8>,
) -> Seq<Seq<u8>> {
    Seq::new(entries.len(), |i: int| directory_of(entries[i], expanded[i], path, cwd))
}

/// Why a configuration and a working directory name no directories.
pub open spec fn directories_fault(config: ConfigView, cwd: Seq<u8>, reachable: bool) -> Option<
    DirectoriesError,
> {
    match config_fault(config, reachable) {
        Some(e) => Some(DirectoriesError::Config(e)),
        None => if is_absolute(cwd) {
            None
        } else {
            Some(DirectoriesError::RelativeCwd)
        },
    }
}

/// The directories of a configuration for the original at `path`.
pub open spec fn directories_of(
    config: ConfigView,
    expanded: Seq<Seq<u8>>,
    path: Option<Seq<u8>>,
    cwd: Seq<u8>,
) -> Seq<Seq<u8>> {
    distinct(entries_of(config.directories, expanded, path, cwd))
}

/// The outcome of naming the directories.
pub open spec fn directories_outcome(
    r: Result<Vec<NativePath>, DirectoriesError>,
    config: ConfigView,
    expanded: Seq<Seq<u8>>,
    path: Option<Seq<u8>>,
    cwd: Seq<u8>,
    reachable: bool,
) -> bool {
    match r {
        Ok(found) => {
            &&& directories_fault(config, cwd, reachable) is None
            &&& path_views(found@) == directories_of(config, expanded, path, cwd)
        },
        Err(e) => directories_fault(config, cwd, reachable) == Some(e),
    }
}

/// The directories of a configuration, given whether the clock can represent the deadline of
/// its update interval. `path` is the original, already resolved; `expanded` holds the
/// configured entries with their `~` expanded.
pub fn directories_with(
    config: &Config,
    expanded: &Vec<NativePath>,
    path: &Option<NativePath>,
    cwd: &NativePath,
    reachable: bool,
) -> (r: Result<Vec<NativePath>, DirectoriesError>)
    requires
        expanded@.len() == config.directories@.len(),
    ensures
        directories_outcome(
            r,
            config@,
            path_views(expanded@),
            path_option(*path),
            cwd@,
            reachable,
        ),
{
    match config.validate_with(reachable) {
        Ok(()) => {},
        Err(e) => {
            return Err(DirectoriesError::Config(e));
        },
    }
    if !cwd.is_absolute() {
        return Err(DirectoriesError::RelativeCwd);
    }
    let here = match path {
        Some(p) => match cwd.join(p).parent() {
            Some(parent) => parent,
            None => cwd.clone(),
        },
        None => cwd.clone(),
    };
    let dot = NativePath::from_text(".");
    let ghost entries = entries_of(
        config@.directories,
        path_views(expanded@),
        path_option(*path),
        cwd@,
    );
    let mut found: Vec<NativePath> = Vec::new();
    let mut i: usize = 0;
    assert(path_views(found@) =~= distinct(entries.take(0)));
    while i < config.directories.len()
        invariant
            i <= config.directories@.len(),
            expanded@.len() == config.directories@.len(),
            here@ == original_directory(path_option(*path), cwd@),
            dot@ == encode_utf8("."@),
            entries == entries_of(
                config@.directories,
                path_views(expanded@),
                path_option(*path),
                cwd@,
            ),
            path_views(found@) == distinct(entries.take(i as int)),
        decreases config.directories@.len() - i,
    {
        let directory = if config.directories[i].same(&dot) {
            here.clone()
        } else {
            cwd.join(&expanded[i])
        };
        proof {
            assert(config@.directories[i as int] == config.directories@[i as int]@);
            assert(path_views(expanded@)[i as int] == expanded@[i as int]@);
            assert(directory@ == entries[i as int]);
            assert(entries.take(i + 1).drop_last() =~= entries.take(i as int));
            assert(entries.take(i + 1).last() == directory@);
        }
        if !list_has(&found, &directory) {
            let ghost before = path_views(found@);
            found.push(directory);
            assert(path_views(found@) =~= before.push(entries[i as int]));
        }
        i = i + 1;
    }
    assert(entries.take(i as int) =~= entries);
    Ok(found)
}

/// The directories of a configuration, by the clock of this machine.
pub fn directories(
    config: &Config,
    expanded: &Vec<NativePath>,
    path: &Option<NativePath>,
    cwd: &NativePath,
) -> (r: Result<Vec<NativePath>, DirectoriesError>)
    requires
        expanded@.len() == config.directories@.len(),
    ensures
        exists|reachable: bool| #[trigger]
            clock_answers(config.update_time, reachable) && directories_outcome(
                r,
                config@,
                path_views(expanded@),
                path_option(*path),
                cwd@,
                reachable,
            ),
{
    let reachable = clock_reaches(config.update_time);
    directories_with(config, expanded, path, cwd, reachable)
}

/// The directories above a path, the nearest first.
pub open spec fn ancestors_of(path: Seq<u8>) -> Seq<Seq<u8>>
    decreases components(path).len(),
    via ancestors_decrease
{
    match parent_of(path) {
        Some(parent) => seq![parent] + ancestors_of(parent),
        None => Seq::empty(),
    }
}

#[via_fn]
proof fn ancestors_decrease(path: Seq<u8>) {
    law_parent_drops_last_component(path);
}

pub fn ancestors(path: &NativePath) -> (r: Vec<NativePath>)
    ensures
        path_views(r@) == ancestors_of(path@),
{
    let mut found: Vec<NativePath> = Vec::new();
    let mut current = path.clone();
    assert(path_views(found@) + ancestors_of(current@) =~= ancestors_of(path@));
    loop
        invariant
            path_views(found@) + ancestors_of(current@) == ancestors_of(path@),
        decreases components(current@).len(),
    {
        proof {
            law_parent_drops_last_component(current@);
        }
        let ghost before = path_views(found@);
        match current.parent() {
            Some(parent) => {
                found.push(parent.clone());
                assert(path_views(found@) =~= before.push(parent@));
                assert(path_views(found@) + ancestors_of(parent@) =~= before + (seq![parent@]
                    + ancestors_of(parent@)));
                current = parent;
            },
            None => {
                assert(path_views(found@) + Seq::<Seq<u8>>::empty() =~= path_views(found@));
                return found;
            },
        }
    }
}

/// The directories to make durable after a directory was created: only the state directory's
/// own recovery directory may be created, and then every directory above it is synced.
pub open spec fn creation_of(directory: Seq<u8>, state_directory: Seq<u8>) -> Option<
    Seq<Seq<u8>>,
> {
    if same_path(directory, state_directory) {
        Some(ancestors_of(directory))
    } else {
        None
    }
}

/// Whether a directory is to be created, and which directories are synced afterwards.
pub fn prepare_directory(directory: &NativePath, state_directory: &NativePath) -> (r: Option<
    Vec<NativePath>,
>)
    ensures
        match r {
            Some(list) => creation_of(directory@, state_directory@) == Some(path_views(list@)),
            None => creation_of(directory@, state_directory@) is None,
        },
{
    if directory.same(state_directory) {
        Some(ancestors(directory))
    } else {
        None
    }
}

/// Law: every configured directory is tried, and none of them twice.
pub proof fn law_directories_are_distinct(paths: Seq<Seq<u8>>)
    ensures
        forall|i: int, j: int|
            0 <= i < j < distinct(paths).len() ==> !same_path(
                #[trigger] distinct(paths)[i],
                #[trigger] distinct(paths)[j],
            ),
        forall|i: int| 0 <= i < paths.len() ==> lists_path(distinct(paths), #[trigger] paths[i]),
        forall|i: int|
            0 <= i < distinct(paths).len() ==> paths.contains(#[trigger] distinct(paths)[i]),
    decreases paths.len(),
{
    if paths.len() > 0 {
        let front = paths.drop_last();
        law_directories_are_distinct(front);
        let kept = distinct(front);
        let all = distinct(paths);
        assert forall|i: int| 0 <= i < all.len() implies paths.contains(#[trigger] all[i]) by {
            if i < kept.len() {
                assert(all[i] == kept[i]);
                let k = choose|k: int| 0 <= k < front.len() && front[k] == kept[i];
                assert(paths[k] == all[i]);
            } else {
                assert(paths[paths.len() - 1] == all[i]);
            }
        }
        assert forall|i: int| 0 <= i < paths.len() implies lists_path(all, #[trigger] paths[i]) by {
            if i < front.len() {
                assert(front[i] == paths[i]);
                let k = choose|k: int|
                    0 <= k < kept.len() && same_path(#[trigger] kept[k], paths[i]);
                assert(all[k] == kept[k]);
            } else if !lists_path(kept, paths.last()) {
                assert(all[kept.len() as int] == paths.last());
            }
        }
        assert forall|i: int, j: int| 0 <= i < j < all.len() implies !same_path(
            #[trigger] all[i],
            #[trigger] all[j],
        ) by {
            assert(all[i] == kept[i]);
            if j < kept.len() {
                assert(all[j] == kept[j]);
            }
        }
    }
}

/// Law: what a configured entry names. One that is `.` names the directory of the original, and
/// the working directory where there is no original or it has none. Any other entry is read
/// against the working directory, whatever the original is: a relative one names the components
/// of the working directory followed by its own names, and an absolute one stands as it is.
pub proof fn law_entries_name_directories(
    entry: Seq<u8>,
    expanded: Seq<u8>,
    path: Option<Seq<u8>>,
    other: Option<Seq<u8>>,
    cwd: Seq<u8>,
)
    requires
        is_absolute(cwd),
    ensures
        ({
            let beside = components(entry) == seq![Component::CurDir];
            let directory = directory_of(entry, expanded, path, cwd);
            &&& !beside ==> directory == directory_of(entry, expanded, other, cwd)
            &&& !beside && is_absolute(expanded) ==> directory == expanded
            &&& !beside && !is_absolute(expanded) ==> components(directory) == components(cwd)
                + pieces(expanded)
            &&& beside && path is None ==> directory == cwd
            &&& beside && path is Some ==> {
                let original = components(joined(cwd, path->0));
                &&& original.len() > 1 ==> components(directory) == original.drop_last()
                &&& original.len() <= 1 ==> directory == cwd
            }
            &&& beside ==> directory == directory_of(entry, cwd, path, cwd)
        }),
{
    reveal_strlit(".");
    vstd::utf8::is_ascii_chars_encode_utf8("."@);
    let dot = encode_utf8("."@);
    assert(dot =~= seq![46u8]);
    let none = Seq::<u8>::empty();
    assert(dot.skip(1) =~= none);
    law_components_are_the_names(none, none, dot);
    assert(components(dot) =~= seq![Component::CurDir]);
    law_join_components(cwd, expanded);
    if let Some(p) = path {
        law_join_components(cwd, p);
        law_parent_drops_last_component(joined(cwd, p));
        let original = components(joined(cwd, p));
        assert(original[0] == Component::RootDir);
        if parent_of(joined(cwd, p)) is Some {
            lemma_parent_is_prefix(joined(cwd, p));
            assert(components(parent_of(joined(cwd, p))->0)[0] == Component::RootDir);
        }
    }
}

/// Law: the directories of a configuration keep the order of its entries. A further entry comes
/// last, unless it names a directory that an earlier one named. No other setting matters.
pub proof fn law_directories_keep_their_order(
    config: ConfigView,
    expanded: Seq<Seq<u8>>,
    path: Option<Seq<u8>>,
    cwd: Seq<u8>,
    entry: Seq<u8>,
    further: Seq<u8>,
    other: ConfigView,
)
    requires
        expanded.len() == config.directories.len(),
        other.directories == config.directories,
    ensures
        ({
            let before = directories_of(config, expanded, path, cwd);
            let more = ConfigView { directories: config.directories.push(entry), ..config };
            let after = directories_of(more, expanded.push(further), path, cwd);
            let named = directory_of(entry, further, path, cwd);
            let met = exists|i: int|
                0 <= i < before.len() && components(#[trigger] before[i]) == components(named);
            &&& met ==> after == before
            &&& !met ==> after == before.push(named)
            &&& config.directories.len() == 0 ==> before.len() == 0
            &&& directories_of(other, expanded, path, cwd) == before
        }),
{
    let entries = entries_of(config.directories, expanded, path, cwd);
    let before = distinct(entries);
    let named = directory_of(entry, further, path, cwd);
    let all = entries_of(
        config.directories.push(entry),
        expanded.push(further),
        path,
        cwd,
    );
    assert(all.drop_last() =~= entries);
    assert(all.last() == named);
    if exists|i: int|
        0 <= i < before.len() && components(#[trigger] before[i]) == components(named) {
        let i = choose|i: int|
            0 <= i < before.len() && components(#[trigger] before[i]) == components(named);
        assert(same_path(before[i], named));
    }
}

/// Law: every configured entry is in the list by the directory that it names, and the list holds
/// nothing else.
pub proof fn law_every_entry_is_used(
    config: ConfigView,
    expanded: Seq<Seq<u8>>,
    path: Option<Seq<u8>>,
    cwd: Seq<u8>,
)
    ensures
        ({
            let found = directories_of(config, expanded, path, cwd);
            &&& forall|e: int|
                #![trigger config.directories[e]]
                0 <= e < config.directories.len() ==> lists_path(
                    found,
                    directory_of(config.directories[e], expanded[e], path, cwd),
                )
            &&& forall|i: int|
                #![trigger found[i]]
                0 <= i < found.len() ==> exists|e: int|
                    0 <= e < config.directories.len() && found[i] == #[trigger] directory_of(
                        config.directories[e],
                        expanded[e],
                        path,
                        cwd,
                    )
        }),
{
    let entries = entries_of(config.directories, expanded, path, cwd);
    let found = distinct(entries);
    law_directories_are_distinct(entries);
    assert forall|e: int|
        #![trigger config.directories[e]]
        0 <= e < config.directories.len() implies lists_path(
        found,
        directory_of(config.directories[e], expanded[e], path, cwd),
    ) by {
        assert(lists_path(found, entries[e]));
    }
    assert forall|i: int| #![trigger found[i]] 0 <= i < found.len() implies exists|e: int|
        0 <= e < config.directories.len() && found[i] == #[trigger] directory_of(
            config.directories[e],
            expanded[e],
            path,
            cwd,
        ) by {
        assert(entries.contains(found[i]));
        let e = choose|e: int| 0 <= e < entries.len() && entries[e] == found[i];
        assert(found[i] == directory_of(config.directories[e], expanded[e], path, cwd));
    }
}

/// Law: directories are named exactly by a valid configuration and an absolute working directory.
/// What is wrong with the configuration is told first.
pub proof fn law_when_directories_are_named(config: ConfigView, cwd: Seq<u8>, reachable: bool)
    ensures
        ({
            let fault = directories_fault(config, cwd, reachable);
            &&& fault is None <==> config_fault(config, reachable) is None && is_absolute(cwd)
            &&& config_fault(config, reachable) matches Some(e) ==> fault == Some(
                DirectoriesError::Config(e),
            )
            &&& fault == Some(DirectoriesError::RelativeCwd) <==> config_fault(config, reachable)
                is None && !is_absolute(cwd)
        }),
{
}

/// Law: a directory is created exactly when it is the state directory's own. The directories above
/// it are then synced: each is the parent of the one before, up to the one that has none.
pub proof fn law_created_directories(directory: Seq<u8>, state_directory: Seq<u8>)
    ensures
        creation_of(directory, state_directory) is Some <==> components(directory) == components(
            state_directory,
        ),
        creation_of(directory, state_directory) matches Some(list) ==> list == ancestors_of(
            directory,
        ),
        ({
            let above = ancestors_of(directory);
            &&& above.len() == 0 <==> parent_of(directory) is None
            &&& above.len() > 0 ==> parent_of(directory) == Some(above[0])
            &&& above.len() > 0 ==> parent_of(above.last()) is None
            &&& forall|i: int|
                #![trigger above[i]]
                0 < i < above.len() ==> parent_of(above[i - 1]) == Some(above[i])
        }),
    decreases components(directory).len(),
{
    law_parent_drops_last_component(directory);
    if let Some(parent) = parent_of(directory) {
        law_created_directories(parent, state_directory);
        let rest = ancestors_of(parent);
        let above = ancestors_of(directory);
        assert(above =~= seq![parent] + rest);
        assert forall|i: int| #![trigger above[i]] 0 < i < above.len() implies parent_of(
            above[i - 1],
        ) == Some(above[i]) by {
            assert(above[i] == rest[i - 1]);
            if i > 1 {
                assert(above[i - 1] == rest[i - 2]);
            }
        }
        if rest.len() > 0 {
            assert(above.last() == rest.last());
        }
    }
}

} // verus!
