//! What a resolved path is: absolute, and resolved for good.

use vstd::prelude::*;

use crate::directories::ancestors_of;
use crate::paths::{
    components, file_name_of, is_absolute, joined, last_separator, law_join_components,
    law_parent_drops_last_component, leads_with_cur_dir, lemma_last_separator,
    lemma_last_separator_is, lemma_parent_is_prefix, lemma_trimmed, parent_of, piece, pieces,
    remainder_of, trimmed, trimmed_front, Component, DOT, SEPARATOR,
};
use crate::resolve::{
    law_questions_resolve_the_path, law_resolved_parent_keeps_the_rest, lemma_ancestor, pursued,
    resolution_of, resolved_path, through_ancestors, Lookup, ResolvedView, MAX_LINKS,
};

verus! {

/// Canonical paths, and absolute paths normalized by their text, are absolute.
pub open spec fn answers_absolute(fs: Lookup) -> bool {
    &&& forall|path: Seq<u8>|
        (#[trigger] (fs.canonical)(path)) matches Some(found) ==> is_absolute(found)
    &&& forall|path: Seq<u8>| is_absolute(path) ==> is_absolute(#[trigger] (fs.normal)(path))
}

proof fn lemma_through_is_absolute(fs: Lookup, path: Seq<u8>, i: int)
    requires
        is_absolute(path),
        answers_absolute(fs),
    ensures
        is_absolute(through_ancestors(fs, path, i)),
    decreases ancestors_of(path).len() - i,
{
    if 0 <= i < ancestors_of(path).len() {
        let above = ancestors_of(path)[i];
        match (fs.canonical)(above) {
            Some(found) => {
                law_join_components(found, remainder_of(path, above));
            },
            None => {
                lemma_through_is_absolute(fs, path, i + 1);
            },
        }
    }
}

/// Law: what an absolute path is resolved to is absolute.
pub proof fn law_resolved_path_is_absolute(fs: Lookup, path: Seq<u8>, links: int)
    requires
        is_absolute(path),
        answers_absolute(fs),
    ensures
        match resolved_path(fs, path, links) {
            ResolvedView::Found(found) => is_absolute(found),
            ResolvedView::TooManyLinks(last) => is_absolute(last),
            _ => true,
        },
    decreases MAX_LINKS - links,
{
    if (fs.canonical)(path) is None {
        match (fs.link)(path) {
            Some(target) => {
                if let Some(parent) = parent_of(path) {
                    lemma_parent_is_prefix(path);
                    law_join_components(parent, target);
                    if links + 1 < MAX_LINKS {
                        law_resolved_path_is_absolute(fs, joined(parent, target), links + 1);
                    }
                }
            },
            None => {
                lemma_through_is_absolute(fs, path, 0);
            },
        }
    }
}

/// An absolute path that ends in a name or is the root: behind the root nothing is left to trim.
pub open spec fn tidy(path: Seq<u8>) -> bool {
    is_absolute(path) && trimmed(path.skip(1)) == path.skip(1)
}

/// A canonical path is tidy and stands for itself.
pub open spec fn settled(fs: Lookup, path: Seq<u8>) -> bool {
    (fs.canonical)(path) matches Some(found) ==> tidy(found) && (fs.canonical)(found) == Some(found)
}

/// The file system finds the same through the canonical form of a directory above the path.
pub open spec fn same_through(fs: Lookup, path: Seq<u8>, i: int) -> bool {
    let above = ancestors_of(path)[i];
    (fs.canonical)(above) matches Some(found) ==> {
        let through = joined(found, remainder_of(path, above));
        &&& (fs.canonical)(through) == (fs.canonical)(path)
        &&& (fs.link)(through) == (fs.link)(path)
    }
}

/// The path without what can be trimmed off its end.
pub open spec fn tidied(path: Seq<u8>) -> Seq<u8> {
    path.take(1) + trimmed(path.skip(1))
}

/// A path that ends in no name ends in a directory, whatever is trimmed off behind it.
pub open spec fn same_tidied(fs: Lookup, path: Seq<u8>) -> bool {
    file_name_of(path) is None ==> (fs.canonical)(path) == (fs.canonical)(tidied(path))
}

/// The canonical path of what exists and is no link is its name in the canonical directory.
pub open spec fn named_entry(fs: Lookup, path: Seq<u8>) -> bool {
    (fs.canonical)(path) matches Some(found) ==> (file_name_of(path) matches Some(name) ==> ((
    fs.link)(path) is None ==> {
        &&& parent_of(path) matches Some(parent)
        &&& (fs.canonical)(parent) matches Some(directory)
        &&& found == joined(directory, name)
    }))
}

/// What a file system that does not change keeps to, where names are told apart as they are
/// written. The root exists.
pub open spec fn consistent(fs: Lookup) -> bool {
    &&& forall|path: Seq<u8>| #[trigger] settled(fs, path)
    &&& (fs.canonical)(seq![SEPARATOR]) == Some(seq![SEPARATOR])
    &&& forall|path: Seq<u8>, i: int|
        tidy(path) && 0 <= i < ancestors_of(path).len() ==> #[trigger] same_through(fs, path, i)
    &&& forall|path: Seq<u8>| is_absolute(path) ==> #[trigger] same_tidied(fs, path)
    &&& forall|path: Seq<u8>| tidy(path) ==> #[trigger] named_entry(fs, path)
}

/// The path that is read in the end, behind all links, exists, or what can be trimmed off its end
/// does not hide a link.
pub open spec fn hides_no_link(fs: Lookup, path: Seq<u8>, links: int) -> bool
    decreases MAX_LINKS - links,
{
    (fs.canonical)(path) is None ==> match (fs.link)(path) {
        Some(target) => parent_of(path) is Some && links + 1 < MAX_LINKS ==> hides_no_link(
            fs,
            joined(parent_of(path)->0, target),
            links + 1,
        ),
        None => (fs.link)(tidied(path)) is None,
    }
}

/// Names behind a directory: nothing to trim at either end.
pub open spec fn names_behind(s: Seq<u8>) -> bool {
    s.len() > 0 && trimmed(s) == s && trimmed_front(s) == s
}

proof fn lemma_trimmed_twice(s: Seq<u8>)
    ensures
        trimmed(trimmed(s)) == trimmed(s),
{
    lemma_trimmed(s);
    let t = trimmed(s);
    lemma_last_separator(t);
    assert(t.skip(0) =~= t);
}

/// What front trimming takes off ends in a separator, and it leaves nothing to take off.
proof fn lemma_front(s: Seq<u8>)
    ensures
        trimmed_front(s).len() <= s.len(),
        trimmed_front(s) == s.skip(s.len() - trimmed_front(s).len()),
        0 < trimmed_front(s).len() < s.len() ==> s[s.len() - trimmed_front(s).len() - 1]
            == SEPARATOR,
        trimmed_front(s).len() > 0 ==> trimmed_front(s)[0] != SEPARATOR,
        !leads_with_cur_dir(trimmed_front(s)),
        trimmed_front(trimmed_front(s)) == trimmed_front(s),
    decreases s.len(),
{
    if s.len() > 0 && (s[0] == SEPARATOR || leads_with_cur_dir(s)) {
        let rest = s.drop_first();
        lemma_front(rest);
        let n = trimmed_front(s).len() as int;
        assert(rest.skip(rest.len() - n) =~= s.skip(s.len() - n));
        if n < rest.len() {
            assert(rest[rest.len() - n - 1] == s[s.len() - n - 1]);
        } else if n > 0 && s[0] != SEPARATOR {
            assert(rest[0] == SEPARATOR);
            assert(trimmed_front(s)[0] == rest[0]);
        }
    } else {
        assert(s.skip(0) =~= s);
    }
}

/// A path that starts with a name has a component.
proof fn lemma_first_name(s: Seq<u8>)
    requires
        s.len() > 0,
        s[0] != SEPARATOR,
        !leads_with_cur_dir(s),
    ensures
        pieces(s).len() > 0,
    decreases s.len(),
{
    lemma_last_separator(s);
    let cut = last_separator(s);
    if cut < 0 {
        if s == seq![DOT] {
            assert(s[0] == DOT && s.len() == 1);
        }
    } else {
        assert(s[0] == s.take(cut)[0]);
        if leads_with_cur_dir(s.take(cut)) {
            assert(s.len() > 1);
            assert(s[1] == SEPARATOR);
        }
        lemma_first_name(s.take(cut));
    }
}

/// Trimming stops at a separator with names behind it.
proof fn lemma_trimmed_behind(a: Seq<u8>, s: Seq<u8>)
    requires
        pieces(s).len() > 0,
    ensures
        trimmed(a + seq![SEPARATOR] + s) == a + seq![SEPARATOR] + trimmed(s),
    decreases s.len(),
{
    let all = a + seq![SEPARATOR] + s;
    lemma_last_separator(s);
    let cut = last_separator(s);
    let at = a.len() + 1 + cut;
    lemma_last_separator_is(all, at);
    assert(all.skip(at + 1) =~= s.skip(cut + 1));
    assert(s.skip(0) =~= s);
    if cut >= 0 && piece(s.skip(cut + 1)).len() == 0 {
        assert(all.take(at) =~= a + seq![SEPARATOR] + s.take(cut));
        lemma_trimmed_behind(a, s.take(cut));
    }
}

/// Without the last of several names, names are left.
proof fn lemma_fewer_names(s: Seq<u8>)
    requires
        names_behind(s),
        last_separator(s) >= 0,
    ensures
        names_behind(trimmed(s.take(last_separator(s)))),
        pieces(s.take(last_separator(s))).len() > 0,
{
    lemma_last_separator(s);
    lemma_front(s);
    let cut = last_separator(s);
    let head = s.take(cut);
    assert(cut > 0);
    assert(head[0] == s[0]);
    if leads_with_cur_dir(head) {
        assert(s[1] == SEPARATOR);
    }
    lemma_first_name(head);
    lemma_trimmed(head);
    lemma_trimmed_twice(head);
    let kept = trimmed(head);
    assert(kept[0] == s[0]);
    if leads_with_cur_dir(kept) {
        if kept.len() == 1 {
            assert(kept =~= seq![DOT]);
            lemma_last_separator_is(kept, -1);
        } else {
            assert(kept[1] == s[1]);
        }
    }
}

/// Names add one component for each, so only several have a separator between them.
proof fn lemma_name_count(s: Seq<u8>)
    requires
        names_behind(s),
    ensures
        last_separator(s) < 0 ==> pieces(s).len() == 1,
        last_separator(s) >= 0 ==> pieces(s).len() > 1,
{
    lemma_last_separator(s);
    lemma_front(s);
    lemma_first_name(s);
    lemma_trimmed(s);
    if last_separator(s) >= 0 {
        lemma_fewer_names(s);
    }
}

/// The parent of names behind a directory that is written with its separator.
proof fn lemma_parent_behind(base: Seq<u8>, s: Seq<u8>)
    requires
        is_absolute(base),
        base.last() == SEPARATOR,
        names_behind(s),
    ensures
        parent_of(base + s) == Some(
            if last_separator(s) >= 0 {
                base + trimmed(s.take(last_separator(s)))
            } else if base.len() == 1 {
                base
            } else {
                base.take(1) + trimmed(base.subrange(1, base.len() - 1))
            },
        ),
{
    let path = base + s;
    let body = path.skip(1);
    let cut = last_separator(s);
    let at = base.len() - 1 + cut;
    lemma_last_separator(s);
    lemma_front(s);
    lemma_first_name(s);
    assert(path.take(1) =~= base.take(1));
    if base.len() == 1 {
        assert(body =~= s);
        assert(base.take(1) =~= base);
    } else {
        let names = base.subrange(1, base.len() - 1);
        assert(body =~= names + seq![SEPARATOR] + s);
        lemma_trimmed_behind(names, s);
        lemma_last_separator_is(body, at);
        if cut >= 0 {
            let head = s.take(cut);
            lemma_fewer_names(s);
            assert(body.take(at) =~= names + seq![SEPARATOR] + head);
            lemma_trimmed_behind(names, head);
            assert(base.take(1) + (names + seq![SEPARATOR] + trimmed(head)) =~= base + trimmed(
                head,
            ));
        } else {
            assert(body.take(at) =~= names);
        }
    }
    if base.len() == 1 && cut < 0 {
        let none = Seq::<u8>::empty();
        assert(s.take(0) =~= none);
        assert(trimmed(none) =~= none);
        assert(base + none =~= base);
    }
}

/// A tidy directory, written with its separator.
pub open spec fn as_base(directory: Seq<u8>) -> Seq<u8> {
    if directory.len() == 1 {
        directory
    } else {
        directory + seq![SEPARATOR]
    }
}

proof fn lemma_joined_names(directory: Seq<u8>, s: Seq<u8>)
    requires
        tidy(directory),
        names_behind(s),
    ensures
        joined(directory, s) == as_base(directory) + s,
        remainder_of(joined(directory, s), directory) == s,
{
    lemma_front(s);
    if directory.len() > 1 {
        let names = directory.skip(1);
        lemma_trimmed(names);
        lemma_last_separator(names);
        assert(directory.last() == names.last());
        if names.last() == SEPARATOR {
            assert(names.skip(last_separator(names) + 1) =~= Seq::<u8>::empty());
        }
        let tail = joined(directory, s).skip(directory.len() as int);
        assert(tail =~= seq![SEPARATOR] + s);
        assert(tail.drop_first() =~= s);
    } else {
        assert(joined(directory, s).skip(1) =~= s);
    }
}

/// The names of a tidy path behind a directory above it.
proof fn lemma_names_behind(path: Seq<u8>, i: int)
    requires
        tidy(path),
        0 <= i < ancestors_of(path).len(),
    ensures
        ({
            let above = ancestors_of(path)[i];
            let s = remainder_of(path, above);
            let base = path.take(path.len() - s.len());
            &&& names_behind(s)
            &&& s == trimmed_front(path.skip(above.len() as int))
            &&& above.len() <= base.len()
            &&& path == base + s
            &&& is_absolute(base)
            &&& base.last() == SEPARATOR
            &&& pieces(s).len() == i + 1
        }),
{
    let above = ancestors_of(path)[i];
    let tail = path.skip(above.len() as int);
    let front = trimmed_front(tail);
    let rest = remainder_of(path, above);
    lemma_ancestor(path, i);
    lemma_front(tail);
    lemma_trimmed(front);
    lemma_trimmed_twice(front);
    lemma_depth(path, i);
    let root = seq![SEPARATOR];
    law_resolved_parent_keeps_the_rest(path, i, root);
    law_join_components(root, rest);
    assert(!is_absolute(rest)) by {
        if rest.len() > 0 {
            assert(rest[0] == front[0]);
        }
    }
    let count = components(path).len() - components(above).len();
    assert(components(joined(root, rest)).len() == components(root).len() + count);
    assert(pieces(rest).len() == i + 1);
    let base = path.take(path.len() - front.len());
    assert(path =~= base + front);
    assert(front.len() > 0);
    assert(base.last() == SEPARATOR) by {
        if front.len() < tail.len() {
            assert(base.last() == tail[tail.len() - front.len() - 1]);
        } else if above.len() > 1 {
            assert(tail[0] == SEPARATOR);
            assert(front[0] == tail[0]);
        }
    }
    if base.len() == 1 {
        assert(path.skip(1) =~= front);
    } else {
        let names = base.subrange(1, base.len() - 1);
        assert(path.skip(1) =~= names + seq![SEPARATOR] + front);
        lemma_trimmed_behind(names, front);
        assert((names + seq![SEPARATOR] + trimmed(front)).len() == (names + seq![SEPARATOR]
            + front).len());
    }
    assert(front.take(front.len() as int) =~= front);
}

/// Each directory above a path has one component less.
proof fn lemma_depth(path: Seq<u8>, i: int)
    requires
        0 <= i < ancestors_of(path).len(),
    ensures
        components(path).len() == components(ancestors_of(path)[i]).len() + i + 1,
    decreases i,
{
    law_parent_drops_last_component(path);
    let parent = parent_of(path)->0;
    assert(ancestors_of(path) == seq![parent] + ancestors_of(parent));
    if i > 0 {
        lemma_depth(parent, i - 1);
        assert(ancestors_of(path)[i] == ancestors_of(parent)[i - 1]);
    }
}

proof fn lemma_parent_is_tidy(path: Seq<u8>)
    requires
        is_absolute(path),
        parent_of(path) is Some,
    ensures
        tidy(parent_of(path)->0),
{
    let parent = parent_of(path)->0;
    lemma_parent_is_prefix(path);
    let body = trimmed(path.skip(1));
    let cut = last_separator(body);
    let kept = trimmed(body.take(if cut < 0 { 0 } else { cut }));
    assert(parent == path.take(1) + kept);
    assert(parent.skip(1) =~= kept);
    lemma_trimmed_twice(body.take(if cut < 0 { 0 } else { cut }));
}

/// What is taken off the front does not depend on the names behind it.
proof fn lemma_same_front(a: Seq<u8>, s: Seq<u8>, t: Seq<u8>)
    requires
        names_behind(s),
        t.len() > 0,
        trimmed_front(t) == t,
        trimmed_front(a + s) == s,
    ensures
        trimmed_front(a + t) == t,
    decreases a.len(),
{
    lemma_front(s);
    lemma_front(t);
    if a.len() == 0 {
        assert(a + t =~= t);
    } else {
        let whole = a + s;
        assert((a + s).drop_first() =~= a.drop_first() + s);
        assert((a + t).drop_first() =~= a.drop_first() + t);
        assert(whole.len() != s.len());
        assert(whole[0] == SEPARATOR || leads_with_cur_dir(whole));
        if a.len() == 1 && whole[0] != SEPARATOR {
            assert(whole[1] == s[0]);
        }
        lemma_same_front(a.drop_first(), s, t);
    }
}

/// The directories above the names behind `found` mirror those above the names behind `above`.
proof fn lemma_mirrored(path: Seq<u8>, i: int, found: Seq<u8>)
    requires
        tidy(path),
        tidy(found),
        0 <= i < ancestors_of(path).len(),
    ensures
        ({
            let above = ancestors_of(path)[i];
            let through = joined(found, remainder_of(path, above));
            &&& i < ancestors_of(through).len()
            &&& ancestors_of(through)[i] == found
            &&& forall|k: int|
                0 <= k < i ==> #[trigger] ancestors_of(through)[k] == joined(
                    found,
                    remainder_of(ancestors_of(path)[k], above),
                )
        }),
    decreases i,
{
    let above = ancestors_of(path)[i];
    let rest = remainder_of(path, above);
    let through = joined(found, rest);
    let parent = parent_of(path)->0;
    let base = path.take(path.len() - rest.len());
    lemma_names_behind(path, i);
    lemma_name_count(rest);
    lemma_joined_names(found, rest);
    lemma_parent_behind(as_base(found), rest);
    assert(ancestors_of(path) == seq![parent] + ancestors_of(parent));
    let next = parent_of(through)->0;
    assert(ancestors_of(through) == seq![next] + ancestors_of(next));
    if i == 0 {
        if found.len() > 1 {
            let written = as_base(found);
            assert(written.subrange(1, written.len() - 1) =~= found.skip(1));
            assert(written.take(1) + found.skip(1) =~= found);
        }
    } else {
        let kept = trimmed(rest.take(last_separator(rest)));
        lemma_parent_behind(base, rest);
        lemma_fewer_names(rest);
        lemma_parent_is_tidy(path);
        lemma_joined_names(found, kept);
        let n = above.len() as int;
        assert(path.skip(n) =~= base.skip(n) + rest);
        lemma_same_front(base.skip(n), rest, kept);
        assert(parent.skip(n) =~= base.skip(n) + kept);
        assert(remainder_of(parent, above) == kept);
        assert(ancestors_of(parent)[i - 1] == above);
        lemma_mirrored(parent, i - 1, found);
        assert forall|k: int| 0 <= k < i implies #[trigger] ancestors_of(through)[k] == joined(
            found,
            remainder_of(ancestors_of(path)[k], above),
        ) by {
            if k > 0 {
                assert(ancestors_of(through)[k] == ancestors_of(next)[k - 1]);
                assert(ancestors_of(path)[k] == ancestors_of(parent)[k - 1]);
            }
        }
    }
}

/// A directory above a directory above a path.
proof fn lemma_above_above(path: Seq<u8>, k: int, i: int)
    requires
        is_absolute(path),
        0 <= k < i < ancestors_of(path).len(),
    ensures
        tidy(ancestors_of(path)[k]),
        i - k - 1 < ancestors_of(ancestors_of(path)[k]).len(),
        ancestors_of(ancestors_of(path)[k])[i - k - 1] == ancestors_of(path)[i],
    decreases k,
{
    let parent = parent_of(path)->0;
    lemma_parent_is_prefix(path);
    lemma_parent_is_tidy(path);
    assert(ancestors_of(path) == seq![parent] + ancestors_of(parent));
    assert(ancestors_of(path)[i] == ancestors_of(parent)[i - 1]);
    if k > 0 {
        assert(ancestors_of(path)[k] == ancestors_of(parent)[k - 1]);
        lemma_above_above(parent, k - 1, i - 1);
    }
}

/// Where no nearer directory can be resolved, the search passes them all.
proof fn lemma_passes(fs: Lookup, path: Seq<u8>, from: int, i: int)
    requires
        0 <= from <= i < ancestors_of(path).len(),
        (fs.canonical)(ancestors_of(path)[i]) is Some,
        forall|k: int|
            from <= k < i ==> (fs.canonical)(#[trigger] ancestors_of(path)[k]) is None,
    ensures
        through_ancestors(fs, path, from) == joined(
            (fs.canonical)(ancestors_of(path)[i])->0,
            remainder_of(path, ancestors_of(path)[i]),
        ),
    decreases i - from,
{
    if from < i {
        lemma_passes(fs, path, from + 1, i);
    }
}

/// The nearest directory above a tidy path that can be resolved: in the end the root can.
proof fn lemma_nearest(fs: Lookup, path: Seq<u8>, from: int) -> (i: int)
    requires
        consistent(fs),
        is_absolute(path),
        0 <= from < ancestors_of(path).len(),
    ensures
        from <= i < ancestors_of(path).len(),
        (fs.canonical)(ancestors_of(path)[i]) is Some,
        forall|k: int|
            from <= k < i ==> (fs.canonical)(#[trigger] ancestors_of(path)[k]) is None,
    decreases ancestors_of(path).len() - from,
{
    if (fs.canonical)(ancestors_of(path)[from]) is Some {
        from
    } else {
        lemma_root_is_last(path);
        assert(from < ancestors_of(path).len() - 1);
        lemma_nearest(fs, path, from + 1)
    }
}

proof fn lemma_root_is_last(path: Seq<u8>)
    requires
        is_absolute(path),
        ancestors_of(path).len() > 0,
    ensures
        ancestors_of(path).last() == seq![SEPARATOR],
    decreases path.len(),
{
    let parent = parent_of(path)->0;
    lemma_parent_is_prefix(path);
    lemma_parent_is_tidy(path);
    assert(ancestors_of(path) == seq![parent] + ancestors_of(parent));
    if ancestors_of(parent).len() > 0 {
        lemma_root_is_last(parent);
    } else {
        assert(parent_of(parent) is None);
        assert(trimmed(parent.skip(1)).len() == 0);
        assert(parent =~= seq![SEPARATOR]);
    }
}

/// What is resolved through the nearest directory that exists is resolved for good.
proof fn lemma_through_is_settled(fs: Lookup, path: Seq<u8>)
    requires
        consistent(fs),
        tidy(path),
        (fs.canonical)(path) is None,
        (fs.link)(path) is None,
    ensures
        ({
            let found = through_ancestors(fs, path, 0);
            resolved_path(fs, found, 0) == ResolvedView::Found(found)
        }),
{
    assert(ancestors_of(path).len() > 0) by {
        law_parent_drops_last_component(path);
        if parent_of(path) is None {
            assert(trimmed(path.skip(1)).len() == 0);
            assert(path =~= seq![SEPARATOR]);
        }
    }
    let i = lemma_nearest(fs, path, 0);
    let above = ancestors_of(path)[i];
    assert(settled(fs, above));
    let found = (fs.canonical)(above)->0;
    lemma_passes(fs, path, 0, i);
    lemma_mirrored(path, i, found);
    lemma_names_behind(path, i);
    let rest = remainder_of(path, above);
    let through = joined(found, rest);
    assert(same_through(fs, path, i));
    assert forall|k: int| 0 <= k < i implies (fs.canonical)(
        #[trigger] ancestors_of(through)[k],
    ) is None by {
        lemma_above_above(path, k, i);
        assert(same_through(fs, ancestors_of(path)[k], i - k - 1));
    }
    lemma_passes(fs, through, 0, i);
    lemma_joined_names(found, rest);
}

proof fn lemma_tidied(path: Seq<u8>)
    requires
        is_absolute(path),
    ensures
        tidy(tidied(path)),
        tidied(path).len() <= path.len(),
        tidied(path) == path.take(tidied(path).len() as int),
        parent_of(tidied(path)) == parent_of(path),
        ancestors_of(tidied(path)) == ancestors_of(path),
        components(tidied(path)) == components(path),
{
    let body = path.skip(1);
    let tidy_path = tidied(path);
    lemma_trimmed(body);
    lemma_trimmed_twice(body);
    assert(tidy_path.skip(1) =~= trimmed(body));
    assert(tidy_path.take(1) =~= path.take(1));
    assert(tidy_path[0] == path[0]);
    assert(tidy_path =~= path.take(tidy_path.len() as int));
}

/// Names with something behind them that can be trimmed off still start with a name.
proof fn lemma_longer_names(s: Seq<u8>, behind: Seq<u8>)
    requires
        names_behind(s),
    ensures
        trimmed_front(s + behind) == s + behind,
        pieces(s + behind).len() > 0,
{
    let longer = s + behind;
    lemma_front(s);
    lemma_trimmed(s);
    assert(longer[0] == s[0]);
    if leads_with_cur_dir(longer) {
        if s.len() == 1 {
            assert(s =~= seq![DOT]);
            lemma_last_separator_is(s, -1);
            assert(s.skip(0) =~= s);
        } else {
            assert(longer[1] == s[1]);
        }
    }
    lemma_first_name(longer);
}

/// What is trimmed off a path is trimmed off its names behind a directory.
proof fn lemma_trimmed_names(base: Seq<u8>, s: Seq<u8>, longer: Seq<u8>)
    requires
        is_absolute(base),
        base.last() == SEPARATOR,
        pieces(longer).len() > 0,
        trimmed((base + longer).skip(1)) == (base + s).skip(1),
    ensures
        trimmed(longer) == s,
{
    if base.len() == 1 {
        assert((base + longer).skip(1) =~= longer);
        assert((base + s).skip(1) =~= s);
    } else {
        let names = base.subrange(1, base.len() - 1);
        let front = names + seq![SEPARATOR];
        assert((base + longer).skip(1) =~= front + longer);
        assert((base + s).skip(1) =~= front + s);
        lemma_trimmed_behind(names, longer);
        assert((front + trimmed(longer)).skip(front.len() as int) =~= trimmed(longer));
        assert((front + s).skip(front.len() as int) =~= s);
    }
}

/// Behind a directory above a path, what can be trimmed off the path's end leaves no trace.
proof fn lemma_tidied_remainder(path: Seq<u8>, i: int)
    requires
        is_absolute(path),
        0 <= i < ancestors_of(path).len(),
    ensures
        remainder_of(path, ancestors_of(path)[i]) == remainder_of(
            tidied(path),
            ancestors_of(path)[i],
        ),
{
    lemma_tidied(path);
    let short = tidied(path);
    let above = ancestors_of(path)[i];
    let n = above.len() as int;
    lemma_names_behind(short, i);
    let rest = remainder_of(short, above);
    let base = short.take(short.len() - rest.len());
    let behind = path.skip(short.len() as int);
    let longer = rest + behind;
    assert(path =~= short + behind);
    assert(base + longer =~= (base + rest) + behind);
    lemma_longer_names(rest, behind);
    assert(short.skip(1) =~= trimmed(path.skip(1)));
    lemma_trimmed_names(base, rest, longer);
    assert(short.skip(n) =~= base.skip(n) + rest);
    assert((base + longer).skip(n) =~= base.skip(n) + longer);
    lemma_same_front(base.skip(n), rest, longer);
}

proof fn lemma_through_tidied(fs: Lookup, path: Seq<u8>, i: int)
    requires
        is_absolute(path),
        consistent(fs),
        0 <= i <= ancestors_of(path).len(),
        exists|k: int|
            i <= k < ancestors_of(path).len() && (fs.canonical)(
                #[trigger] ancestors_of(path)[k],
            ) is Some,
    ensures
        through_ancestors(fs, path, i) == through_ancestors(fs, tidied(path), i),
    decreases ancestors_of(path).len() - i,
{
    lemma_tidied(path);
    if i < ancestors_of(path).len() {
        lemma_tidied_remainder(path, i);
        if (fs.canonical)(ancestors_of(path)[i]) is None {
            lemma_through_tidied(fs, path, i + 1);
        }
    }
}

/// The components of a path that a directory above it does not cover are those behind it.
proof fn lemma_components_behind(path: Seq<u8>, i: int)
    requires
        tidy(path),
        0 <= i < ancestors_of(path).len(),
    ensures
        pieces(remainder_of(path, ancestors_of(path)[i])) == components(path).skip(
            components(ancestors_of(path)[i]).len() as int,
        ),
{
    let above = ancestors_of(path)[i];
    let rest = remainder_of(path, above);
    let root = seq![SEPARATOR];
    lemma_names_behind(path, i);
    lemma_front(rest);
    law_resolved_parent_keeps_the_rest(path, i, root);
    law_join_components(root, rest);
    let n = components(root).len() as int;
    let kept = components(path).skip(components(above).len() as int);
    assert((components(root) + pieces(rest)).skip(n) =~= pieces(rest));
    assert((components(root) + kept).skip(n) =~= kept);
}

/// The one name of a path behind its parent is its file name.
proof fn lemma_name_behind_parent(path: Seq<u8>, name: Seq<u8>)
    requires
        tidy(path),
        parent_of(path) is Some,
        file_name_of(path) == Some(name),
    ensures
        remainder_of(path, parent_of(path)->0) == name,
{
    let parent = parent_of(path)->0;
    assert(ancestors_of(path) == seq![parent] + ancestors_of(parent));
    assert(ancestors_of(path)[0] == parent);
    let rest = remainder_of(path, parent);
    lemma_names_behind(path, 0);
    lemma_name_count(rest);
    lemma_components_behind(path, 0);
    lemma_depth(path, 0);
    assert(pieces(rest).last() == components(path).last());
    assert(pieces(rest) == piece(rest));
}

/// A path that does not exist and is no link, and does not hide one, is resolved for good.
proof fn lemma_missing_is_settled(fs: Lookup, path: Seq<u8>)
    requires
        consistent(fs),
        is_absolute(path),
        (fs.canonical)(path) is None,
        (fs.link)(path) is None,
        (fs.link)(tidied(path)) is None,
    ensures
        ({
            let found = through_ancestors(fs, path, 0);
            resolved_path(fs, found, 0) == ResolvedView::Found(found)
        }),
{
    let short = tidied(path);
    lemma_tidied(path);
    assert(same_tidied(fs, path));
    assert(ancestors_of(path).len() > 0) by {
        law_parent_drops_last_component(path);
        if parent_of(path) is None {
            assert(trimmed(path.skip(1)).len() == 0);
            assert(short =~= seq![SEPARATOR]);
            assert(components(path).len() > 0);
            assert(file_name_of(path) is None);
        }
    }
    let i = lemma_nearest(fs, path, 0);
    assert((fs.canonical)(ancestors_of(path)[i]) is Some);
    lemma_through_tidied(fs, path, 0);
    match (fs.canonical)(short) {
        None => {
            lemma_through_is_settled(fs, short);
        },
        Some(found) => {
            assert(file_name_of(short) == file_name_of(path));
            let name = file_name_of(short)->0;
            assert(named_entry(fs, short));
            assert(settled(fs, short));
            let parent = parent_of(short)->0;
            assert(ancestors_of(short) == seq![parent] + ancestors_of(parent));
            assert(ancestors_of(short)[0] == parent);
            lemma_name_behind_parent(short, name);
            assert(through_ancestors(fs, short, 0) == found);
        },
    }
}

/// Law: a resolved path is resolved for good. On a file system that does not change, resolving it
/// again gives the same path. Left out is only a path that does not exist as it is written, with
/// a separator or a `.` at its end, while there is a link without them: a dangling link with a
/// separator behind it is resolved to the link.
pub proof fn law_resolved_path_resolves_to_itself(fs: Lookup, path: Seq<u8>, links: int)
    requires
        consistent(fs),
        is_absolute(path),
        hides_no_link(fs, path, links),
    ensures
        resolved_path(fs, path, links) matches ResolvedView::Found(found) ==> resolved_path(
            fs,
            found,
            0,
        ) == ResolvedView::Found(found),
    decreases MAX_LINKS - links,
{
    match (fs.canonical)(path) {
        Some(found) => {
            assert(settled(fs, path));
        },
        None => match (fs.link)(path) {
            Some(target) => {
                if parent_of(path) is Some && links + 1 < MAX_LINKS {
                    let parent = parent_of(path)->0;
                    lemma_parent_is_prefix(path);
                    law_join_components(parent, target);
                    law_resolved_path_resolves_to_itself(fs, joined(parent, target), links + 1);
                }
            },
            None => {
                lemma_missing_is_settled(fs, path);
            },
        },
    }
}

/// Law: the path of an original, read against an absolute working directory, is resolved to an
/// absolute path that is resolved to itself, whatever the working directory then is. One that
/// exists is resolved to its canonical path, so all aliases of one file come to one path.
pub proof fn law_original_path_is_resolved_for_good(
    fs: Lookup,
    path: Seq<u8>,
    cwd: Seq<u8>,
    later_cwd: Seq<u8>,
)
    requires
        consistent(fs),
        answers_absolute(fs),
        is_absolute(cwd),
        hides_no_link(fs, joined(cwd, path), 0),
    ensures
        pursued(fs, resolution_of(path, cwd)) matches ResolvedView::Found(found) ==> is_absolute(
            found,
        ) && pursued(fs, resolution_of(found, later_cwd)) == ResolvedView::Found(found),
        (fs.canonical)(joined(cwd, path)) matches Some(found) ==> pursued(
            fs,
            resolution_of(path, cwd),
        ) == ResolvedView::Found(found),
{
    let whole = joined(cwd, path);
    law_join_components(cwd, path);
    law_questions_resolve_the_path(fs, whole, 0);
    law_resolved_path_is_absolute(fs, whole, 0);
    law_resolved_path_resolves_to_itself(fs, whole, 0);
    if let ResolvedView::Found(found) = resolved_path(fs, whole, 0) {
        law_questions_resolve_the_path(fs, found, 0);
    }
}

/// Each path of the chain but the last is a link that leads to the next one: its target, read
/// against the directory of the link.
pub open spec fn leads_on(fs: Lookup, chain: Seq<Seq<u8>>) -> bool {
    forall|i: int|
        #![trigger chain[i]]
        0 <= i < chain.len() - 1 ==> {
            &&& (fs.canonical)(chain[i]) is None
            &&& (fs.link)(chain[i]) is Some
            &&& parent_of(chain[i]) is Some
            &&& chain[i + 1] == joined(parent_of(chain[i])->0, (fs.link)(chain[i])->0)
        }
}

proof fn lemma_chain(fs: Lookup, chain: Seq<Seq<u8>>, links: int)
    requires
        leads_on(fs, chain),
        chain.len() > 0,
        0 <= links,
    ensures
        links + chain.len() <= 40 ==> resolved_path(fs, chain[0], links) == resolved_path(
            fs,
            chain.last(),
            links + chain.len() - 1,
        ),
        links + chain.len() == 41 && chain.len() > 1 ==> resolved_path(fs, chain[0], links)
            == ResolvedView::TooManyLinks(chain.last()),
    decreases chain.len(),
{
    if chain.len() > 1 {
        let rest = chain.drop_first();
        assert forall|i: int| #![trigger rest[i]] 0 <= i < rest.len() - 1 implies {
            &&& (fs.canonical)(rest[i]) is None
            &&& (fs.link)(rest[i]) is Some
            &&& parent_of(rest[i]) is Some
            &&& rest[i + 1] == joined(parent_of(rest[i])->0, (fs.link)(rest[i])->0)
        } by {
            assert(rest[i] == chain[i + 1]);
            assert(rest[i + 1] == chain[i + 2]);
        }
        assert(rest[0] == chain[1]);
        assert((fs.link)(chain[0]) is Some);
        lemma_chain(fs, rest, links + 1);
        assert(rest.last() == chain.last());
    }
}

/// Law: fewer than 40 links are followed to where they lead, also where that does not exist, and
/// the fortieth is refused with the path that it leads to.
pub proof fn law_links_are_followed_up_to_the_limit(fs: Lookup, chain: Seq<Seq<u8>>)
    requires
        leads_on(fs, chain),
        0 < chain.len() <= 41,
    ensures
        chain.len() <= 40 ==> resolved_path(fs, chain[0], 0) == resolved_path(
            fs,
            chain.last(),
            chain.len() - 1,
        ),
        chain.len() == 41 ==> resolved_path(fs, chain[0], 0) == ResolvedView::TooManyLinks(
            chain.last(),
        ),
{
    lemma_chain(fs, chain, 0);
}

/// Law: what exists is resolved to its canonical path, before a link is looked at. The target of a
/// link that leads nowhere is read against the directory of the link: its names follow the
/// components of that directory, unless it is absolute. A link at the root has no directory.
pub proof fn law_links_are_read_against_their_directory(
    fs: Lookup,
    path: Seq<u8>,
    links: int,
    target: Seq<u8>,
)
    requires
        is_absolute(path),
    ensures
        (fs.canonical)(path) matches Some(found) ==> resolved_path(fs, path, links)
            == ResolvedView::Found(found),
        (fs.canonical)(path) is None && (fs.link)(path) == Some(target) ==> {
            &&& components(path).len() <= 1 ==> resolved_path(fs, path, links)
                == ResolvedView::NoParent
            &&& components(path).len() > 1 && links + 1 < 40 ==> exists|next: Seq<u8>|
                {
                    &&& resolved_path(fs, path, links) == #[trigger] resolved_path(
                        fs,
                        next,
                        links + 1,
                    )
                    &&& is_absolute(target) ==> next == target
                    &&& !is_absolute(target) ==> components(next) == components(path).drop_last()
                        + pieces(target)
                }
        },
{
    law_parent_drops_last_component(path);
    if let Some(parent) = parent_of(path) {
        lemma_parent_is_prefix(path);
        law_join_components(parent, target);
        let next = joined(parent, target);
        assert(components(path).len() > 1) by {
            assert(components(parent)[0] == Component::RootDir);
        }
        if (fs.canonical)(path) is None && (fs.link)(path) == Some(target) && links + 1 < 40 {
            assert(resolved_path(fs, path, links) == resolved_path(fs, next, links + 1));
        }
    } else {
        assert(components(path).len() <= 1);
    }
}

/// Law: a path that does not exist and is no link is resolved through the nearest directory above
/// it that exists, keeping every name behind that directory. Where none does it is normalized by
/// its text.
pub proof fn law_nearest_directory_is_used(fs: Lookup, path: Seq<u8>, links: int, i: int)
    requires
        is_absolute(path),
        (fs.canonical)(path) is None,
        (fs.link)(path) is None,
        0 <= i <= ancestors_of(path).len(),
        forall|k: int| 0 <= k < i ==> (fs.canonical)(#[trigger] ancestors_of(path)[k]) is None,
    ensures
        i < ancestors_of(path).len() && (fs.canonical)(ancestors_of(path)[i]) is Some ==> {
            let found = (fs.canonical)(ancestors_of(path)[i])->0;
            &&& resolved_path(fs, path, links) matches ResolvedView::Found(resolved)
            &&& is_absolute(found) ==> components(resolved) == components(found) + components(
                path,
            ).skip(components(ancestors_of(path)[i]).len() as int)
        },
        i == ancestors_of(path).len() ==> resolved_path(fs, path, links) == ResolvedView::Found(
            (fs.normal)(path),
        ),
{
    if i < ancestors_of(path).len() {
        if (fs.canonical)(ancestors_of(path)[i]) is Some {
            lemma_passes(fs, path, 0, i);
            let found = (fs.canonical)(ancestors_of(path)[i])->0;
            if is_absolute(found) {
                law_resolved_parent_keeps_the_rest(path, i, found);
            }
        }
    } else {
        lemma_none_is_passed(fs, path, 0);
    }
}

proof fn lemma_none_is_passed(fs: Lookup, path: Seq<u8>, from: int)
    requires
        0 <= from <= ancestors_of(path).len(),
        forall|k: int|
            0 <= k < ancestors_of(path).len() ==> (fs.canonical)(
                #[trigger] ancestors_of(path)[k],
            ) is None,
    ensures
        through_ancestors(fs, path, from) == (fs.normal)(path),
    decreases ancestors_of(path).len() - from,
{
    if from < ancestors_of(path).len() {
        assert((fs.canonical)(ancestors_of(path)[from]) is None);
        lemma_none_is_passed(fs, path, from + 1);
    }
}

} // verus!
