//! Resolving the path of an original: a question about the file system at a time.
//!
//! A new file may not exist yet, and some file systems cannot represent all native path units.
//! The parent is resolved where possible, without losing those units.

use vstd::prelude::*;

use crate::directories::{ancestors, ancestors_of};
use crate::paths::{
    components, is_absolute, joined, law_join_components, lead, leads_with_cur_dir,
    lemma_no_separator, lemma_parent_is_prefix, lemma_pieces_split, lemma_trimmed_pieces,
    parent_of, path_option, pieces, remainder_of, trimmed_front, Component, NativePath, DOT,
    SEPARATOR,
};

verus! {

/// Most symbolic links that are followed.
pub const MAX_LINKS: usize = 40;

/// How far the resolution of the current path has come.
#[derive(Debug, Clone, Copy, PartialEq, Eq, Structural)]
pub enum Step {
    /// Whether the path itself can be resolved.
    Whole,
    /// Whether it is a link.
    Link,
    /// Whether the directory of this index above it can be resolved; behind the last one the
    /// path is normalized by its text alone.
    Above(usize),
}

/// The resolution of one path.
#[derive(Debug)]
pub struct Resolution {
    pub path: NativePath,
    /// Links followed so far.
    pub links: usize,
    pub step: Step,
}

/// What a step stands for.
pub enum StepView {
    Whole,
    Link,
    Above(int),
}

impl View for Step {
    type V = StepView;

    open spec fn view(&self) -> StepView {
        match self {
            Step::Whole => StepView::Whole,
            Step::Link => StepView::Link,
            Step::Above(i) => StepView::Above(*i as int),
        }
    }
}

/// What a resolution stands for.
#[verifier::ext_equal]
pub struct ResolutionView {
    pub path: Seq<u8>,
    pub links: int,
    pub step: StepView,
}

impl View for Resolution {
    type V = ResolutionView;

    open spec fn view(&self) -> ResolutionView {
        ResolutionView { path: self.path@, links: self.links as int, step: self.step@ }
    }
}

/// A question about the file system.
#[derive(Debug)]
pub enum Query {
    /// The absolute path without links, if the path exists.
    Canonicalize(NativePath),
    /// What the path links to, if it is a link.
    ReadLink(NativePath),
    /// The path with `.` and `..` removed by its text alone. This is always answered.
    Normalize(NativePath),
}

pub enum QueryView {
    Canonicalize(Seq<u8>),
    ReadLink(Seq<u8>),
    Normalize(Seq<u8>),
}

impl View for Query {
    type V = QueryView;

    open spec fn view(&self) -> QueryView {
        match self {
            Query::Canonicalize(path) => QueryView::Canonicalize(path@),
            Query::ReadLink(path) => QueryView::ReadLink(path@),
            Query::Normalize(path) => QueryView::Normalize(path@),
        }
    }
}

/// What an answer leads to.
#[derive(Debug)]
pub enum Resolved {
    Ask(Resolution),
    Found(NativePath),
    /// The link has no directory that its target can be read against.
    NoParent,
    TooManyLinks(NativePath),
}

pub enum ResolvedView {
    Ask(ResolutionView),
    Found(Seq<u8>),
    NoParent,
    TooManyLinks(Seq<u8>),
}

impl View for Resolved {
    type V = ResolvedView;

    open spec fn view(&self) -> ResolvedView {
        match self {
            Resolved::Ask(resolution) => ResolvedView::Ask(resolution@),
            Resolved::Found(path) => ResolvedView::Found(path@),
            Resolved::NoParent => ResolvedView::NoParent,
            Resolved::TooManyLinks(path) => ResolvedView::TooManyLinks(path@),
        }
    }
}

/// The start of a resolution.
pub open spec fn resolution_of(path: Seq<u8>, cwd: Seq<u8>) -> ResolutionView {
    ResolutionView { path: joined(cwd, path), links: 0, step: StepView::Whole }
}

/// The question that a resolution asks.
pub open spec fn query_of(r: ResolutionView) -> QueryView {
    match r.step {
        StepView::Whole => QueryView::Canonicalize(r.path),
        StepView::Link => QueryView::ReadLink(r.path),
        StepView::Above(i) => if 0 <= i < ancestors_of(r.path).len() {
            QueryView::Canonicalize(ancestors_of(r.path)[i])
        } else {
            QueryView::Normalize(r.path)
        },
    }
}

/// What the answer to that question leads to.
pub open spec fn answered(r: ResolutionView, answer: Option<Seq<u8>>) -> ResolvedView {
    match (r.step, answer) {
        (StepView::Whole, Some(found)) => ResolvedView::Found(found),
        (StepView::Whole, None) => ResolvedView::Ask(ResolutionView { step: StepView::Link, ..r }),
        (StepView::Link, Some(target)) => match parent_of(r.path) {
            None => ResolvedView::NoParent,
            Some(parent) => {
                let next = joined(parent, target);
                if r.links + 1 >= MAX_LINKS {
                    ResolvedView::TooManyLinks(next)
                } else {
                    ResolvedView::Ask(
                        ResolutionView {
                            path: next,
                            links: r.links + 1,
                            step: StepView::Whole,
                        },
                    )
                }
            },
        },
        (StepView::Link, None) => ResolvedView::Ask(
            ResolutionView { step: StepView::Above(0), ..r },
        ),
        (StepView::Above(i), Some(found)) => if 0 <= i < ancestors_of(r.path).len() {
            ResolvedView::Found(
                joined(found, remainder_of(r.path, ancestors_of(r.path)[i])),
            )
        } else {
            ResolvedView::Found(found)
        },
        (StepView::Above(i), None) => ResolvedView::Ask(
            ResolutionView { step: StepView::Above(i + 1), ..r },
        ),
    }
}

/// An answer that the question allows: a normalized path always comes back.
pub open spec fn answerable(r: ResolutionView, answer: Option<Seq<u8>>) -> bool {
    query_of(r) is Normalize ==> answer is Some
}

impl Resolution {
    /// Starts to resolve `path`, read against `cwd`.
    pub fn original_path(path: &NativePath, cwd: &NativePath) -> (r: Resolution)
        ensures
            r@ == resolution_of(path@, cwd@),
    {
        Resolution { path: cwd.join(path), links: 0, step: Step::Whole }
    }

    /// The question to answer next.
    pub fn query(&self) -> (r: Query)
        ensures
            r@ == query_of(self@),
    {
        match self.step {
            Step::Whole => Query::Canonicalize(self.path.clone()),
            Step::Link => Query::ReadLink(self.path.clone()),
            Step::Above(i) => {
                let above = ancestors(&self.path);
                assert(above@.len() == ancestors_of(self.path@).len());
                if i < above.len() {
                    assert(ancestors_of(self.path@)[i as int] == above@[i as int]@);
                    Query::Canonicalize(above[i].clone())
                } else {
                    Query::Normalize(self.path.clone())
                }
            },
        }
    }

    /// Takes the answer to the question.
    pub fn answer(self, answer: Option<NativePath>) -> (r: Resolved)
        requires
            answerable(self@, path_option(answer)),
        ensures
            r@ == answered(self@, path_option(answer)),
    {
        match self.step {
            Step::Whole => match answer {
                Some(found) => Resolved::Found(found),
                None => Resolved::Ask(Resolution { step: Step::Link, ..self }),
            },
            Step::Link => match answer {
                Some(target) => match self.path.parent() {
                    None => Resolved::NoParent,
                    Some(parent) => {
                        let next = parent.join(&target);
                        if self.links >= MAX_LINKS - 1 {
                            Resolved::TooManyLinks(next)
                        } else {
                            Resolved::Ask(
                                Resolution {
                                    path: next,
                                    links: self.links + 1,
                                    step: Step::Whole,
                                },
                            )
                        }
                    },
                },
                None => Resolved::Ask(Resolution { step: Step::Above(0), ..self }),
            },
            Step::Above(i) => {
                let above = ancestors(&self.path);
                assert(above@.len() == ancestors_of(self.path@).len());
                match answer {
                    Some(found) => if i < above.len() {
                        assert(ancestors_of(self.path@)[i as int] == above@[i as int]@);
                        proof {
                            lemma_ancestor(self.path@, i as int);
                        }
                        let rest = self.path.remainder(&above[i]);
                        Resolved::Found(found.join(&rest))
                    } else {
                        Resolved::Found(found)
                    },
                    None => {
                        assert(i < above.len());
                        Resolved::Ask(Resolution { step: Step::Above(i + 1), ..self })
                    },
                }
            },
        }
    }
}

/// Questions that can still follow while no further link is found.
pub open spec fn remaining(r: ResolutionView) -> int {
    match r.step {
        StepView::Whole => 2 + ancestors_of(r.path).len() as int,
        StepView::Link => 1 + ancestors_of(r.path).len() as int,
        StepView::Above(i) => ancestors_of(r.path).len() as int - i,
    }
}

/// Where a resolution can stand.
pub open spec fn resolution_ok(r: ResolutionView) -> bool {
    &&& 0 <= r.links < MAX_LINKS
    &&& r.step matches StepView::Above(i) ==> 0 <= i <= ancestors_of(r.path).len()
}

/// Law: resolution ends, also on links that lead round in a circle. Every answer finishes it,
/// follows one more link below the limit, or leaves fewer questions to ask.
pub proof fn law_resolution_ends(r: ResolutionView, answer: Option<Seq<u8>>)
    requires
        answerable(r, answer),
        resolution_ok(r),
    ensures
        answered(r, answer) matches ResolvedView::Ask(next) ==> {
            &&& resolution_ok(next)
            &&& next.links == r.links + 1 || (next.links == r.links && 0 <= remaining(next)
                < remaining(r))
        },
{
}

/// What a file system answers.
pub struct Lookup {
    pub canonical: spec_fn(Seq<u8>) -> Option<Seq<u8>>,
    pub link: spec_fn(Seq<u8>) -> Option<Seq<u8>>,
    pub normal: spec_fn(Seq<u8>) -> Seq<u8>,
}

pub open spec fn reply(fs: Lookup, query: QueryView) -> Option<Seq<u8>> {
    match query {
        QueryView::Canonicalize(path) => (fs.canonical)(path),
        QueryView::ReadLink(path) => (fs.link)(path),
        QueryView::Normalize(path) => Some((fs.normal)(path)),
    }
}

/// What a resolution comes to when that file system answers every question.
pub open spec fn pursued(fs: Lookup, r: ResolutionView) -> ResolvedView
    decreases MAX_LINKS - r.links, remaining(r),
    when resolution_ok(r)
{
    match answered(r, reply(fs, query_of(r))) {
        ResolvedView::Ask(next) => pursued(fs, next),
        ended => ended,
    }
}

/// A path through the nearest directory above it, from the index on, that can be resolved; else
/// the path normalized by its text.
pub open spec fn through_ancestors(fs: Lookup, path: Seq<u8>, i: int) -> Seq<u8>
    decreases ancestors_of(path).len() - i,
{
    if 0 <= i < ancestors_of(path).len() {
        let above = ancestors_of(path)[i];
        match (fs.canonical)(above) {
            Some(found) => joined(found, remainder_of(path, above)),
            None => through_ancestors(fs, path, i + 1),
        }
    } else {
        (fs.normal)(path)
    }
}

/// The resolution of a path: the path itself where it exists, else what a link there leads to, up
/// to the limit of links, else the path through the nearest directory that exists.
pub open spec fn resolved_path(fs: Lookup, path: Seq<u8>, links: int) -> ResolvedView
    decreases MAX_LINKS - links,
{
    match (fs.canonical)(path) {
        Some(found) => ResolvedView::Found(found),
        None => match (fs.link)(path) {
            Some(target) => match parent_of(path) {
                None => ResolvedView::NoParent,
                Some(parent) => if links + 1 >= MAX_LINKS {
                    ResolvedView::TooManyLinks(joined(parent, target))
                } else {
                    resolved_path(fs, joined(parent, target), links + 1)
                },
            },
            None => ResolvedView::Found(through_ancestors(fs, path, 0)),
        },
    }
}

proof fn lemma_pursued_above(fs: Lookup, r: ResolutionView)
    requires
        resolution_ok(r),
        r.step is Above,
    ensures
        pursued(fs, r) == ResolvedView::Found(through_ancestors(fs, r.path, r.step->Above_0)),
    decreases remaining(r),
{
    let i = r.step->Above_0;
    if i < ancestors_of(r.path).len() && (fs.canonical)(ancestors_of(r.path)[i]) is None {
        lemma_pursued_above(fs, ResolutionView { step: StepView::Above(i + 1), ..r });
    }
}

/// Law: asking one question at a time comes to the resolution of the whole path.
pub proof fn law_questions_resolve_the_path(fs: Lookup, path: Seq<u8>, links: int)
    requires
        0 <= links < MAX_LINKS,
    ensures
        pursued(fs, ResolutionView { path, links, step: StepView::Whole }) == resolved_path(
            fs,
            path,
            links,
        ),
    decreases MAX_LINKS - links,
{
    let whole = ResolutionView { path, links, step: StepView::Whole };
    let link = ResolutionView { step: StepView::Link, ..whole };
    let above = ResolutionView { step: StepView::Above(0), ..whole };
    if (fs.canonical)(path) is None {
        assert(pursued(fs, whole) == pursued(fs, link));
        match (fs.link)(path) {
            Some(target) => {
                if parent_of(path) is Some && links + 1 < MAX_LINKS {
                    let next = joined(parent_of(path)->0, target);
                    law_questions_resolve_the_path(fs, next, links + 1);
                }
            },
            None => {
                assert(pursued(fs, link) == pursued(fs, above));
                lemma_pursued_above(fs, above);
            },
        }
    }
}

/// A directory above a path is a part of its units, cut at a separator.
pub proof fn lemma_ancestor(path: Seq<u8>, i: int)
    requires
        0 <= i < ancestors_of(path).len(),
    ensures
        ({
            let above = ancestors_of(path)[i];
            &&& above.len() < path.len()
            &&& above == path.take(above.len() as int)
            &&& is_absolute(path) ==> above.len() > 0 && (above.len() == 1
                || path[above.len() as int] == SEPARATOR)
        }),
    decreases i,
{
    lemma_parent_is_prefix(path);
    let parent = parent_of(path)->0;
    assert(ancestors_of(path) == seq![parent] + ancestors_of(parent));
    if i > 0 {
        lemma_ancestor(parent, i - 1);
        let above = ancestors_of(parent)[i - 1];
        assert(ancestors_of(path)[i] == above);
        assert(parent.take(above.len() as int) =~= path.take(above.len() as int));
    }
}

proof fn lemma_trimmed_front(s: Seq<u8>)
    ensures
        pieces(trimmed_front(s)) == pieces(s),
        trimmed_front(s).len() > 0 ==> trimmed_front(s)[0] != SEPARATOR,
    decreases s.len(),
{
    let none = Seq::<u8>::empty();
    assert(pieces(none) =~= Seq::<Component>::empty());
    if s.len() > 0 && s[0] == SEPARATOR {
        lemma_trimmed_front(s.drop_first());
        assert(s =~= none + seq![SEPARATOR] + s.drop_first());
        lemma_pieces_split(none, s.drop_first());
        assert(pieces(s) =~= pieces(s.drop_first()));
    } else if leads_with_cur_dir(s) {
        lemma_trimmed_front(s.drop_first());
        if s.len() == 1 {
            assert(s =~= seq![DOT]);
            assert(s.drop_first() =~= none);
            assert(pieces(s) =~= Seq::<Component>::empty()) by {
                lemma_no_separator(s);
            }
        } else {
            let rest = s.skip(2);
            assert(s =~= seq![DOT] + seq![SEPARATOR] + rest);
            lemma_pieces_split(seq![DOT], rest);
            lemma_no_separator(seq![DOT]);
            assert(s.drop_first() =~= none + seq![SEPARATOR] + rest);
            lemma_pieces_split(none, rest);
        }
    }
}

/// Law: what is resolved through a directory above an absolute path keeps every name behind
/// that directory: the components of the outcome are those of the resolved directory followed
/// by the components of the path that the directory did not cover.
pub proof fn law_resolved_parent_keeps_the_rest(path: Seq<u8>, i: int, resolved: Seq<u8>)
    requires
        is_absolute(path),
        is_absolute(resolved),
        0 <= i < ancestors_of(path).len(),
    ensures
        components(joined(resolved, remainder_of(path, ancestors_of(path)[i]))) == components(
            resolved,
        ) + components(path).skip(components(ancestors_of(path)[i]).len() as int),
{
    let above = ancestors_of(path)[i];
    lemma_ancestor(path, i);
    let tail = path.skip(above.len() as int);
    lemma_trimmed_front(tail);
    let front = trimmed_front(tail);
    lemma_trimmed_pieces(front);
    let rest = remainder_of(path, above);
    assert(pieces(rest) == pieces(tail));
    assert(!is_absolute(rest)) by {
        if rest.len() > 0 {
            assert(rest[0] == front[0]);
        }
    }
    law_join_components(resolved, rest);
    let names = above.skip(1);
    assert(above[0] == path[0]);
    assert(pieces(path.skip(1)) == pieces(names) + pieces(tail)) by {
        let none = Seq::<u8>::empty();
        assert(pieces(none) =~= Seq::<Component>::empty());
        if above.len() == 1 {
            assert(names =~= none);
            assert(tail =~= path.skip(1));
            assert(pieces(names) + pieces(tail) =~= pieces(tail));
        } else {
            let behind = tail.drop_first();
            assert(path.skip(1) =~= names + seq![SEPARATOR] + behind);
            lemma_pieces_split(names, behind);
            assert(tail =~= none + seq![SEPARATOR] + behind);
            lemma_pieces_split(none, behind);
            assert(pieces(tail) =~= pieces(behind));
        }
    }
    assert(components(path) =~= components(above) + pieces(tail));
    assert(components(path).skip(components(above).len() as int) =~= pieces(tail));
}

} // verus!
