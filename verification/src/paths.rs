//! Unix paths as plain bytes: components, comparison, joining and taking apart.

use vstd::prelude::*;
use vstd::utf8::encode_utf8;

use crate::bytes::{
    append_bytes, bytes_before, bytes_equal, bytes_less, copy_bytes, copy_range, lemma_bytes_order,
    lemma_bytes_transitive,
};

verus! {

pub const SEPARATOR: u8 = 47;

pub const DOT: u8 = 46;

/// A Unix path: a sequence of native path units, kept without loss.
#[derive(Debug)]
pub struct NativePath {
    pub units: Vec<u8>,
}

impl View for NativePath {
    type V = Seq<u8>;

    open spec fn view(&self) -> Seq<u8> {
        self.units@
    }
}

impl Clone for NativePath {
    fn clone(&self) -> (r: NativePath)
        ensures
            r@ == self@,
    {
        NativePath { units: copy_bytes(self.units.as_slice()) }
    }
}

/// One component of a path, as paths are compared and taken apart.
pub enum Component {
    RootDir,
    CurDir,
    ParentDir,
    Normal(Seq<u8>),
}

pub open spec fn is_absolute(path: Seq<u8>) -> bool {
    path.len() > 0 && path[0] == SEPARATOR
}

/// The path is `.` or starts with `./`.
pub open spec fn leads_with_cur_dir(path: Seq<u8>) -> bool {
    path.len() > 0 && path[0] == DOT && (path.len() == 1 || path[1] == SEPARATOR)
}

/// Where the names of a path start, behind its root or its leading `.`.
pub open spec fn body_start(path: Seq<u8>) -> int {
    if is_absolute(path) || leads_with_cur_dir(path) {
        1
    } else {
        0
    }
}

/// Position of the last separator, or -1.
pub open spec fn last_separator(s: Seq<u8>) -> int
    decreases s.len(),
{
    if s.len() == 0 {
        -1
    } else if s.last() == SEPARATOR {
        s.len() - 1
    } else {
        last_separator(s.drop_last())
    }
}

/// What one name between separators adds to the components: empty names and `.` add nothing.
pub open spec fn piece(name: Seq<u8>) -> Seq<Component> {
    if name.len() == 0 || name == seq![DOT] {
        Seq::empty()
    } else if name == seq![DOT, DOT] {
        seq![Component::ParentDir]
    } else {
        seq![Component::Normal(name)]
    }
}

/// The components that the names of `s`, split at its separators, add up to.
pub open spec fn pieces(s: Seq<u8>) -> Seq<Component>
    decreases s.len(),
{
    let cut = last_separator(s);
    if cut < 0 || cut >= s.len() {
        piece(s)
    } else {
        pieces(s.take(cut)) + piece(s.skip(cut + 1))
    }
}

/// The component that a path starts with before its names, if any.
pub open spec fn lead(path: Seq<u8>) -> Seq<Component> {
    if is_absolute(path) {
        seq![Component::RootDir]
    } else if leads_with_cur_dir(path) {
        seq![Component::CurDir]
    } else {
        Seq::empty()
    }
}

/// The components of a path: repeated separators, a trailing separator and every `.` but a
/// leading one do not count.
pub open spec fn components(path: Seq<u8>) -> Seq<Component> {
    lead(path) + pieces(path.skip(body_start(path)))
}

/// Two paths are the same when their components are.
pub open spec fn same_path(a: Seq<u8>, b: Seq<u8>) -> bool {
    components(a) == components(b)
}

/// The path that `path` means when it is read against `base`.
pub open spec fn joined(base: Seq<u8>, path: Seq<u8>) -> Seq<u8> {
    if is_absolute(path) {
        path
    } else if base.len() > 0 && base.last() != SEPARATOR {
        base + seq![SEPARATOR] + path
    } else {
        base + path
    }
}

/// `s` without the separators and `.` names at its end.
pub open spec fn trimmed(s: Seq<u8>) -> Seq<u8>
    decreases s.len(),
{
    let cut = last_separator(s);
    if cut < 0 || cut >= s.len() {
        if piece(s).len() > 0 {
            s
        } else {
            Seq::empty()
        }
    } else if piece(s.skip(cut + 1)).len() > 0 {
        s
    } else {
        trimmed(s.take(cut))
    }
}

/// `s` without the separators and `.` names at its start.
pub open spec fn trimmed_front(s: Seq<u8>) -> Seq<u8>
    decreases s.len(),
{
    if s.len() > 0 && s[0] == SEPARATOR {
        trimmed_front(s.drop_first())
    } else if leads_with_cur_dir(s) {
        trimmed_front(s.drop_first())
    } else {
        s
    }
}

/// The path without its last component; a path of the root alone, or of nothing, has none.
pub open spec fn parent_of(path: Seq<u8>) -> Option<Seq<u8>> {
    let start = body_start(path);
    let body = trimmed(path.skip(start));
    if body.len() > 0 {
        let cut = last_separator(body);
        Some(path.take(start) + trimmed(body.take(if cut < 0 { 0 } else { cut })))
    } else if leads_with_cur_dir(path) {
        Some(Seq::empty())
    } else {
        None
    }
}

/// The last component of a path when it is a name.
pub open spec fn file_name_of(path: Seq<u8>) -> Option<Seq<u8>> {
    let all = components(path);
    if all.len() > 0 {
        match all.last() {
            Component::Normal(name) => Some(name),
            _ => None,
        }
    } else {
        None
    }
}

/// What is left of `path` behind `ancestor`, one of the paths it has by taking parents.
pub open spec fn remainder_of(path: Seq<u8>, ancestor: Seq<u8>) -> Seq<u8> {
    trimmed(trimmed_front(path.skip(ancestor.len() as int)))
}

/// The order of the kinds of component.
pub open spec fn rank(c: Component) -> int {
    match c {
        Component::RootDir => 0,
        Component::CurDir => 1,
        Component::ParentDir => 2,
        Component::Normal(_) => 3,
    }
}

pub open spec fn component_less(a: Component, b: Component) -> bool {
    match (a, b) {
        (Component::Normal(x), Component::Normal(y)) => bytes_less(x, y),
        _ => rank(a) < rank(b),
    }
}

/// Lexicographic order of components.
pub open spec fn components_less(a: Seq<Component>, b: Seq<Component>) -> bool
    decreases a.len(),
{
    if b.len() == 0 {
        false
    } else if a.len() == 0 {
        true
    } else if a[0] != b[0] {
        component_less(a[0], b[0])
    } else {
        components_less(a.drop_first(), b.drop_first())
    }
}

/// The order in which paths are listed.
pub open spec fn path_less(a: Seq<u8>, b: Seq<u8>) -> bool {
    components_less(components(a), components(b))
}

/// The paths that a list of paths stands for.
pub open spec fn path_views(paths: Seq<NativePath>) -> Seq<Seq<u8>> {
    paths.map_values(|p: NativePath| p@)
}

pub open spec fn path_option(path: Option<NativePath>) -> Option<Seq<u8>> {
    match path {
        Some(p) => Some(p@),
        None => None,
    }
}

pub proof fn lemma_last_separator(s: Seq<u8>)
    ensures
        -1 <= last_separator(s) < s.len(),
        last_separator(s) >= 0 ==> s[last_separator(s)] == SEPARATOR,
        forall|i: int| last_separator(s) < i < s.len() ==> s[i] != SEPARATOR,
    decreases s.len(),
{
    if s.len() > 0 && s.last() != SEPARATOR {
        lemma_last_separator(s.drop_last());
        assert forall|i: int| last_separator(s) < i < s.len() implies s[i] != SEPARATOR by {
            if i < s.len() - 1 {
                assert(s.drop_last()[i] == s[i]);
            }
        }
    }
}

pub proof fn lemma_last_separator_is(s: Seq<u8>, cut: int)
    requires
        -1 <= cut < s.len(),
        cut >= 0 ==> s[cut] == SEPARATOR,
        forall|i: int| cut < i < s.len() ==> s[i] != SEPARATOR,
    ensures
        last_separator(s) == cut,
{
    lemma_last_separator(s);
}

/// An exact copy of one component, with its name in memory.
pub enum Part {
    RootDir,
    CurDir,
    ParentDir,
    Normal(Vec<u8>),
}

impl View for Part {
    type V = Component;

    open spec fn view(&self) -> Component {
        match self {
            Part::RootDir => Component::RootDir,
            Part::CurDir => Component::CurDir,
            Part::ParentDir => Component::ParentDir,
            Part::Normal(name) => Component::Normal(name@),
        }
    }
}

pub open spec fn part_views(parts: Seq<Part>) -> Seq<Component> {
    parts.map_values(|p: Part| p@)
}

fn push_piece(out: &mut Vec<Part>, name: Vec<u8>)
    ensures
        part_views(final(out)@) == part_views(old(out)@) + piece(name@),
{
    if name.len() == 0 || (name.len() == 1 && name[0] == DOT) {
        assert(name@.len() == 1 ==> name@ =~= seq![DOT]);
    } else if name.len() == 2 && name[0] == DOT && name[1] == DOT {
        assert(name@ =~= seq![DOT, DOT]);
        assert(name@.len() != seq![DOT].len());
        out.push(Part::ParentDir);
        assert(part_views(out@) =~= part_views(old(out)@).push(Component::ParentDir));
    } else {
        assert(name@ != seq![DOT] && name@ != seq![DOT, DOT]) by {
            if name@ == seq![DOT] {
                assert(name@[0] == DOT);
            }
            if name@ == seq![DOT, DOT] {
                assert(name@[0] == DOT && name@[1] == DOT);
            }
        }
        let ghost view = name@;
        out.push(Part::Normal(name));
        assert(part_views(out@) =~= part_views(old(out)@).push(Component::Normal(view)));
    }
    assert(part_views(out@) =~= part_views(old(out)@) + piece(name@));
}

fn equal_part(a: &Part, b: &Part) -> (r: bool)
    ensures
        r == (a@ == b@),
{
    match (a, b) {
        (Part::RootDir, Part::RootDir) => true,
        (Part::CurDir, Part::CurDir) => true,
        (Part::ParentDir, Part::ParentDir) => true,
        (Part::Normal(x), Part::Normal(y)) => bytes_equal(x.as_slice(), y.as_slice()),
        _ => false,
    }
}

fn part_rank(part: &Part) -> (r: u8)
    ensures
        r == rank(part@),
{
    match part {
        Part::RootDir => 0,
        Part::CurDir => 1,
        Part::ParentDir => 2,
        Part::Normal(_) => 3,
    }
}

fn part_before(a: &Part, b: &Part) -> (r: bool)
    ensures
        r == component_less(a@, b@),
{
    match (a, b) {
        (Part::Normal(x), Part::Normal(y)) => bytes_before(x.as_slice(), y.as_slice()),
        _ => part_rank(a) < part_rank(b),
    }
}

pub fn clone_option(path: &Option<NativePath>) -> (r: Option<NativePath>)
    ensures
        path_option(r) == path_option(*path),
{
    match path {
        Some(p) => Some(p.clone()),
        None => None,
    }
}

pub fn clone_paths(paths: &Vec<NativePath>) -> (r: Vec<NativePath>)
    ensures
        path_views(r@) == path_views(paths@),
{
    let mut out: Vec<NativePath> = Vec::new();
    let mut i: usize = 0;
    while i < paths.len()
        invariant
            i <= paths@.len(),
            out@.len() == i,
            forall|k: int| 0 <= k < i ==> (#[trigger] out@[k])@ == paths@[k]@,
        decreases paths@.len() - i,
    {
        out.push(paths[i].clone());
        i = i + 1;
    }
    assert(path_views(out@) =~= path_views(paths@));
    out
}

/// Whether a list holds the same path.
pub open spec fn lists_path(paths: Seq<Seq<u8>>, path: Seq<u8>) -> bool {
    exists|i: int| 0 <= i < paths.len() && same_path(#[trigger] paths[i], path)
}

pub fn list_has(paths: &Vec<NativePath>, path: &NativePath) -> (r: bool)
    ensures
        r == lists_path(path_views(paths@), path@),
{
    let mut i: usize = 0;
    while i < paths.len()
        invariant
            i <= paths@.len(),
            forall|k: int| 0 <= k < i ==> !same_path(#[trigger] path_views(paths@)[k], path@),
        decreases paths@.len() - i,
    {
        if paths[i].same(path) {
            assert(same_path(path_views(paths@)[i as int], path@));
            return true;
        }
        assert(path_views(paths@)[i as int] == paths@[i as int]@);
        i = i + 1;
    }
    false
}

/// Two lists of paths are the same, element by element.
pub open spec fn same_paths(a: Seq<Seq<u8>>, b: Seq<Seq<u8>>) -> bool {
    a.len() == b.len() && forall|i: int| 0 <= i < a.len() ==> same_path(#[trigger] a[i], b[i])
}

pub fn lists_match(a: &Vec<NativePath>, b: &Vec<NativePath>) -> (r: bool)
    ensures
        r == same_paths(path_views(a@), path_views(b@)),
{
    if a.len() != b.len() {
        return false;
    }
    let mut i: usize = 0;
    while i < a.len()
        invariant
            i <= a@.len(),
            a@.len() == b@.len(),
            forall|k: int|
                0 <= k < i ==> same_path(#[trigger] path_views(a@)[k], path_views(b@)[k]),
        decreases a@.len() - i,
    {
        if !a[i].same(&b[i]) {
            assert(!same_path(path_views(a@)[i as int], path_views(b@)[i as int]));
            return false;
        }
        i = i + 1;
    }
    true
}

pub open spec fn same_option(a: Option<Seq<u8>>, b: Option<Seq<u8>>) -> bool {
    match (a, b) {
        (Some(x), Some(y)) => same_path(x, y),
        (None, None) => true,
        _ => false,
    }
}

pub fn options_match(a: &Option<NativePath>, b: &Option<NativePath>) -> (r: bool)
    ensures
        r == same_option(path_option(*a), path_option(*b)),
{
    match (a, b) {
        (Some(x), Some(y)) => x.same(y),
        (None, None) => true,
        _ => false,
    }
}

impl NativePath {
    pub fn new(units: Vec<u8>) -> (r: NativePath)
        ensures
            r@ == units@,
    {
        NativePath { units }
    }

    /// The path that a text names.
    pub fn from_text(text: &str) -> (r: NativePath)
        ensures
            r@ == encode_utf8(text@),
    {
        NativePath { units: copy_bytes(text.as_bytes()) }
    }

    pub fn is_absolute(&self) -> (r: bool)
        ensures
            r == is_absolute(self@),
    {
        self.units.len() > 0 && self.units[0] == SEPARATOR
    }

    fn leads_with_cur_dir(&self) -> (r: bool)
        ensures
            r == leads_with_cur_dir(self@),
    {
        self.units.len() > 0 && self.units[0] == DOT && (self.units.len() == 1 || self.units[1]
            == SEPARATOR)
    }

    fn body_start(&self) -> (r: usize)
        ensures
            r == body_start(self@),
            r <= self@.len(),
    {
        if self.is_absolute() || self.leads_with_cur_dir() {
            1
        } else {
            0
        }
    }

    /// Whether a unit of the path is zero.
    pub fn has_nul(&self) -> (r: bool)
        ensures
            r == self@.contains(0u8),
    {
        let mut i: usize = 0;
        while i < self.units.len()
            invariant
                i <= self@.len(),
                forall|k: int| 0 <= k < i ==> self@[k] != 0,
            decreases self@.len() - i,
        {
            if self.units[i] == 0 {
                assert(self@[i as int] == 0);
                return true;
            }
            i = i + 1;
        }
        false
    }

    /// The components of the path, in order.
    pub fn parts(&self) -> (r: Vec<Part>)
        ensures
            part_views(r@) == components(self@),
    {
        let mut out: Vec<Part> = Vec::new();
        if self.is_absolute() {
            out.push(Part::RootDir);
        } else if self.leads_with_cur_dir() {
            out.push(Part::CurDir);
        }
        assert(part_views(out@) =~= lead(self@));
        let first = self.body_start();
        let ghost body = self@.skip(first as int);
        let mut start: usize = first;
        let mut i: usize = first;
        while i < self.units.len()
            invariant
                first <= start <= i <= self@.len(),
                first == body_start(self@),
                body == self@.skip(first as int),
                start > first ==> self@[start - 1] == SEPARATOR,
                forall|k: int| start <= k < i ==> self@[k] != SEPARATOR,
                part_views(out@) == lead(self@) + (if start == first {
                    Seq::empty()
                } else {
                    pieces(body.take(start - 1 - first))
                }),
            decreases self@.len() - i,
        {
            if self.units[i] == SEPARATOR {
                let name = copy_range(self.units.as_slice(), start, i);
                proof {
                    lemma_next_piece(self@, first as int, start as int, i as int);
                }
                push_piece(&mut out, name);
                assert(part_views(out@) =~= lead(self@) + pieces(body.take(i - first)));
                start = i + 1;
            }
            i = i + 1;
        }
        let name = copy_range(self.units.as_slice(), start, i);
        proof {
            lemma_next_piece(self@, first as int, start as int, i as int);
            assert(body.take(i - first) =~= body);
        }
        push_piece(&mut out, name);
        assert(part_views(out@) =~= lead(self@) + pieces(body));
        out
    }

    /// Component-wise equality.
    pub fn same(&self, other: &NativePath) -> (r: bool)
        ensures
            r == same_path(self@, other@),
    {
        let a = self.parts();
        let b = other.parts();
        if a.len() != b.len() {
            assert(part_views(a@).len() != part_views(b@).len());
            return false;
        }
        let mut i: usize = 0;
        while i < a.len()
            invariant
                i <= a.len(),
                a.len() == b.len(),
                part_views(a@) == components(self@),
                part_views(b@) == components(other@),
                forall|k: int| 0 <= k < i ==> part_views(a@)[k] == part_views(b@)[k],
            decreases a.len() - i,
        {
            if !equal_part(&a[i], &b[i]) {
                assert(part_views(a@)[i as int] != part_views(b@)[i as int]);
                return false;
            }
            i = i + 1;
        }
        assert(part_views(a@) =~= part_views(b@));
        true
    }

    /// Component-wise order.
    pub fn before(&self, other: &NativePath) -> (r: bool)
        ensures
            r == path_less(self@, other@),
    {
        let a = self.parts();
        let b = other.parts();
        let ghost x = part_views(a@);
        let ghost y = part_views(b@);
        let mut i: usize = 0;
        assert(x.skip(0) =~= x);
        assert(y.skip(0) =~= y);
        while i < a.len() && i < b.len()
            invariant
                i <= a.len(),
                i <= b.len(),
                x == part_views(a@),
                x == components(self@),
                y == part_views(b@),
                y == components(other@),
                components_less(x, y) == components_less(x.skip(i as int), y.skip(i as int)),
            decreases a.len() - i,
        {
            assert(x.skip(i as int)[0] == a@[i as int]@);
            assert(y.skip(i as int)[0] == b@[i as int]@);
            if !equal_part(&a[i], &b[i]) {
                return part_before(&a[i], &b[i]);
            }
            proof {
                assert(x.skip(i as int).drop_first() =~= x.skip(i + 1));
                assert(y.skip(i as int).drop_first() =~= y.skip(i + 1));
            }
            i = i + 1;
        }
        i < b.len()
    }

    /// `path` read against this path.
    pub fn join(&self, path: &NativePath) -> (r: NativePath)
        ensures
            r@ == joined(self@, path@),
    {
        if path.is_absolute() {
            return path.clone();
        }
        let mut units = copy_bytes(self.units.as_slice());
        let count = units.len();
        if count > 0 && units[count - 1] != SEPARATOR {
            units.push(SEPARATOR);
        }
        append_bytes(&mut units, path.units.as_slice());
        let r = NativePath { units };
        assert(r@ =~= joined(self@, path@));
        r
    }

    /// Where `trimmed` ends the units from `first` to `end`.
    fn trim_end(&self, first: usize, end: usize) -> (r: usize)
        requires
            first <= end <= self@.len(),
        ensures
            first <= r <= end,
            trimmed(self@.subrange(first as int, end as int)) == self@.subrange(
                first as int,
                r as int,
            ),
    {
        let mut stop: usize = end;
        loop
            invariant
                first <= stop <= end <= self@.len(),
                trimmed(self@.subrange(first as int, end as int)) == trimmed(
                    self@.subrange(first as int, stop as int),
                ),
            decreases stop,
        {
            let start = self.name_start(first, stop);
            let ghost s = self@.subrange(first as int, stop as int);
            proof {
                lemma_last_separator_is(s, start - first - 1);
                if start > first {
                    assert(s.skip(start - first) =~= self@.subrange(start as int, stop as int));
                    assert(s.take(start - first - 1) =~= self@.subrange(
                        first as int,
                        start - 1,
                    ));
                } else {
                    assert(s =~= self@.subrange(start as int, stop as int));
                }
            }
            let ghost name = self@.subrange(start as int, stop as int);
            let kept = stop - start > 1 || (stop - start == 1 && self.units[start] != DOT);
            proof {
                if stop - start == 1 && self@[start as int] == DOT {
                    assert(name =~= seq![DOT]);
                } else if stop - start >= 1 {
                    assert(name != seq![DOT]) by {
                        if name == seq![DOT] {
                            assert(name.len() == 1 && name[0] == DOT);
                        }
                    }
                }
                assert(kept == (piece(name).len() > 0));
            }
            if kept {
                return stop;
            }
            if start == first {
                assert(self@.subrange(first as int, first as int) =~= Seq::<u8>::empty());
                return first;
            }
            stop = start - 1;
        }
    }

    /// Where the last name between `first` and `end` starts.
    fn name_start(&self, first: usize, end: usize) -> (r: usize)
        requires
            first <= end <= self@.len(),
        ensures
            first <= r <= end,
            r > first ==> self@[r - 1] == SEPARATOR,
            forall|k: int| r <= k < end ==> self@[k] != SEPARATOR,
    {
        let mut start: usize = end;
        while start > first && self.units[start - 1] != SEPARATOR
            invariant
                first <= start <= end <= self@.len(),
                forall|k: int| start <= k < end ==> self@[k] != SEPARATOR,
            decreases start,
        {
            start = start - 1;
        }
        start
    }

    /// The path without its last component.
    pub fn parent(&self) -> (r: Option<NativePath>)
        ensures
            path_option(r) == parent_of(self@),
    {
        let first = self.body_start();
        let end = self.trim_end(first, self.units.len());
        let ghost body = self@.subrange(first as int, end as int);
        assert(self@.skip(first as int) =~= self@.subrange(first as int, self@.len() as int));
        if end == first {
            return if self.leads_with_cur_dir() {
                let r = NativePath { units: Vec::new() };
                assert(r@ =~= Seq::<u8>::empty());
                Some(r)
            } else {
                None
            };
        }
        let start = self.name_start(first, end);
        let cut = if start == first {
            first
        } else {
            start - 1
        };
        proof {
            lemma_last_separator_is(body, start - first - 1);
            assert(body.take(cut - first) =~= self@.subrange(first as int, cut as int));
        }
        let stop = self.trim_end(first, cut);
        let r = NativePath { units: copy_range(self.units.as_slice(), 0, stop) };
        assert(r@ =~= self@.take(first as int) + self@.subrange(first as int, stop as int));
        Some(r)
    }

    /// The last component when it is a name.
    pub fn file_name(&self) -> (r: Option<Vec<u8>>)
        ensures
            match r {
                Some(name) => file_name_of(self@) == Some(name@),
                None => file_name_of(self@) is None,
            },
    {
        let parts = self.parts();
        let count = parts.len();
        if count == 0 {
            assert(components(self@).len() == 0);
            return None;
        }
        assert(components(self@).last() == parts@[count - 1]@);
        match &parts[count - 1] {
            Part::Normal(name) => Some(copy_bytes(name.as_slice())),
            _ => None,
        }
    }

    /// What is left behind an ancestor.
    pub fn remainder(&self, ancestor: &NativePath) -> (r: NativePath)
        requires
            ancestor@.len() <= self@.len(),
        ensures
            r@ == remainder_of(self@, ancestor@),
    {
        let count = self.units.len();
        let mut first: usize = ancestor.units.len();
        while first < count && (self.units[first] == SEPARATOR || (self.units[first] == DOT && (
        first + 1 == count || self.units[first + 1] == SEPARATOR)))
            invariant
                count == self@.len(),
                ancestor@.len() <= first <= count,
                trimmed_front(self@.skip(ancestor@.len() as int)) == trimmed_front(
                    self@.skip(first as int),
                ),
            decreases count - first,
        {
            assert(self@.skip(first as int).drop_first() =~= self@.skip(first + 1));
            first = first + 1;
        }
        assert(trimmed_front(self@.skip(first as int)) == self@.skip(first as int));
        assert(self@.skip(first as int) =~= self@.subrange(first as int, count as int));
        let stop = self.trim_end(first, count);
        NativePath { units: copy_range(self.units.as_slice(), first, stop) }
    }
}

/// The name between `start` and `end` is the next piece of a path whose names start at `first`.
proof fn lemma_next_piece(path: Seq<u8>, first: int, start: int, end: int)
    requires
        0 <= first <= start <= end <= path.len(),
        start > first ==> path[start - 1] == SEPARATOR,
        forall|k: int| start <= k < end ==> path[k] != SEPARATOR,
    ensures
        pieces(path.skip(first).take(end - first)) == (if start == first {
            Seq::empty()
        } else {
            pieces(path.skip(first).take(start - 1 - first))
        }) + piece(path.subrange(start, end)),
{
    let s = path.skip(first).take(end - first);
    lemma_last_separator_is(s, start - 1 - first);
    if start == first {
        assert(s =~= path.subrange(start, end));
    } else {
        assert(s.take(start - 1 - first) =~= path.skip(first).take(start - 1 - first));
        assert(s.skip(start - first) =~= path.subrange(start, end));
    }
}

pub proof fn lemma_trimmed(s: Seq<u8>)
    ensures
        trimmed(s).len() <= s.len(),
        trimmed(s) == s.take(trimmed(s).len() as int),
        pieces(trimmed(s)) == pieces(s),
        trimmed(s).len() == 0 <==> pieces(s).len() == 0,
        trimmed(s).len() > 0 ==> piece(trimmed(s).skip(last_separator(trimmed(s)) + 1)).len() == 1,
    decreases s.len(),
{
    lemma_last_separator(s);
    let cut = last_separator(s);
    if cut < 0 {
        assert(s.skip(cut + 1) =~= s);
        assert(s.take(s.len() as int) =~= s);
        assert(s.take(0) =~= Seq::<u8>::empty());
        assert(pieces(Seq::<u8>::empty()) =~= Seq::<Component>::empty());
    } else if piece(s.skip(cut + 1)).len() > 0 {
        assert(s.take(s.len() as int) =~= s);
    } else {
        lemma_trimmed(s.take(cut));
        assert(pieces(s) =~= pieces(s.take(cut)));
        assert(s.take(cut).take(trimmed(s).len() as int) =~= s.take(trimmed(s).len() as int));
    }
}

/// Trimming keeps the names.
pub proof fn lemma_trimmed_pieces(s: Seq<u8>)
    ensures
        pieces(trimmed(s)) == pieces(s),
        trimmed(s).len() <= s.len(),
        trimmed(s) == s.take(trimmed(s).len() as int),
{
    lemma_trimmed(s);
}

/// A name without separators is one piece.
pub proof fn lemma_no_separator(s: Seq<u8>)
    requires
        forall|i: int| 0 <= i < s.len() ==> s[i] != SEPARATOR,
    ensures
        pieces(s) == piece(s),
{
    lemma_last_separator_is(s, -1);
}

/// What is trimmed off starts with a separator, where something is left.
proof fn lemma_trimmed_cut(s: Seq<u8>)
    ensures
        0 < trimmed(s).len() < s.len() ==> s[trimmed(s).len() as int] == SEPARATOR,
    decreases s.len(),
{
    lemma_last_separator(s);
    let cut = last_separator(s);
    if cut >= 0 && piece(s.skip(cut + 1)).len() == 0 {
        lemma_trimmed_cut(s.take(cut));
        lemma_trimmed(s.take(cut));
    }
}

/// The parent is a proper part of the path's units, cut at a separator.
pub proof fn lemma_parent_is_prefix(path: Seq<u8>)
    requires
        parent_of(path) is Some,
    ensures
        ({
            let parent = parent_of(path)->0;
            &&& parent.len() < path.len()
            &&& parent == path.take(parent.len() as int)
            &&& is_absolute(path) ==> is_absolute(parent)
            &&& is_absolute(path) && parent.len() > 1 ==> path[parent.len() as int] == SEPARATOR
        }),
{
    let start = body_start(path);
    let rest = path.skip(start);
    let body = trimmed(rest);
    lemma_trimmed(rest);
    if body.len() > 0 {
        lemma_last_separator(body);
        let cut = last_separator(body);
        let head = body.take(if cut < 0 { 0 } else { cut });
        lemma_trimmed(head);
        lemma_trimmed_cut(head);
        let kept = trimmed(head);
        assert(path.take(start) + kept =~= path.take(start + kept.len()));
        if kept.len() > 0 {
            if kept.len() < head.len() {
                assert(path[start + kept.len()] == head[kept.len() as int]);
            } else {
                assert(path[start + kept.len()] == body[cut]);
            }
        }
    } else {
        assert(path.take(0) =~= Seq::<u8>::empty());
    }
}

/// Law: taking the parent drops exactly the last component. Only a path of the root alone, or
/// an empty one, has no parent.
pub proof fn law_parent_drops_last_component(path: Seq<u8>)
    ensures
        match parent_of(path) {
            Some(parent) => components(path).len() > 0 && components(parent) == components(
                path,
            ).drop_last(),
            None => components(path) == Seq::<Component>::empty() || components(path)
                == seq![Component::RootDir],
        },
{
    let start = body_start(path);
    let rest = path.skip(start);
    let body = trimmed(rest);
    lemma_trimmed(rest);
    if body.len() > 0 {
        lemma_last_separator(body);
        let cut = last_separator(body);
        let head = body.take(if cut < 0 { 0 } else { cut });
        let kept = trimmed(head);
        lemma_trimmed(head);
        let parent = path.take(start) + kept;
        if cut < 0 {
            assert(body.skip(cut + 1) =~= body);
            assert(head =~= Seq::<u8>::empty());
            assert(pieces(head) =~= Seq::<Component>::empty());
        }
        assert(pieces(body).drop_last() =~= pieces(head));
        assert(kept =~= path.subrange(start, start + kept.len()));
        assert(parent =~= path.take(start + kept.len()));
        assert(lead(parent) == lead(path) && body_start(parent) == start) by {
            if start == 0 && parent.len() > 0 {
                assert(parent[0] == path[0]);
                if parent.len() == 1 && parent[0] == DOT {
                    assert(kept =~= seq![DOT]);
                    lemma_last_separator_is(kept, -1);
                    assert(kept.skip(0) =~= kept);
                }
            }
        }
        assert(parent.skip(start) =~= kept);
        assert(components(path).drop_last() =~= lead(path) + pieces(body).drop_last());
    } else {
        assert(pieces(rest) =~= Seq::<Component>::empty());
        if leads_with_cur_dir(path) {
            let empty = Seq::<u8>::empty();
            assert(empty.skip(0) =~= empty);
            assert(pieces(empty) =~= Seq::<Component>::empty());
            assert(components(empty) =~= Seq::<Component>::empty());
            assert(components(path).drop_last() =~= Seq::<Component>::empty());
        }
        assert(components(path) =~= lead(path));
    }
}

/// Splitting at a separator splits the names.
pub proof fn lemma_pieces_split(a: Seq<u8>, b: Seq<u8>)
    ensures
        pieces(a + seq![SEPARATOR] + b) == pieces(a) + pieces(b),
    decreases b.len(),
{
    let s = a + seq![SEPARATOR] + b;
    lemma_last_separator(b);
    let cut = last_separator(b);
    if cut < 0 {
        lemma_last_separator_is(s, a.len() as int);
        assert(s.take(a.len() as int) =~= a);
        assert(s.skip(a.len() as int + 1) =~= b);
    } else {
        let at = a.len() + 1 + cut;
        lemma_last_separator_is(s, at);
        assert(s.take(at) =~= a + seq![SEPARATOR] + b.take(cut));
        assert(s.skip(at + 1) =~= b.skip(cut + 1));
        lemma_pieces_split(a, b.take(cut));
        assert(pieces(s) =~= pieces(a) + pieces(b));
    }
}

/// Law: a relative path joined to an absolute one keeps every component of the base and adds
/// its own names; a leading `.` adds nothing. An absolute path replaces the base.
pub proof fn law_join_components(base: Seq<u8>, path: Seq<u8>)
    requires
        is_absolute(base),
    ensures
        is_absolute(joined(base, path)),
        is_absolute(path) ==> joined(base, path) == path,
        !is_absolute(path) ==> components(joined(base, path)) == components(base) + pieces(path),
{
    if !is_absolute(path) {
        let names = base.skip(1);
        let r = joined(base, path);
        if base.last() != SEPARATOR {
            assert(r.skip(1) =~= names + seq![SEPARATOR] + path);
            lemma_pieces_split(names, path);
        } else if base.len() == 1 {
            assert(r.skip(1) =~= path);
            assert(names =~= Seq::<u8>::empty());
            assert(pieces(names) =~= Seq::<Component>::empty());
        } else {
            let front = names.drop_last();
            assert(names =~= front + seq![SEPARATOR] + Seq::<u8>::empty());
            assert(r.skip(1) =~= front + seq![SEPARATOR] + path);
            lemma_pieces_split(front, Seq::empty());
            lemma_pieces_split(front, path);
            assert(pieces(Seq::<u8>::empty()) =~= Seq::<Component>::empty());
            assert(pieces(names) =~= pieces(front));
        }
        assert(components(r) =~= components(base) + pieces(path));
    }
}

/// The name of a file: no separator, and neither `.` nor `..`.
pub open spec fn plain_name(name: Seq<u8>) -> bool {
    name.len() > 2 && forall|i: int| 0 <= i < name.len() ==> name[i] != SEPARATOR
}

/// A file in a directory has that name, and a parent.
pub proof fn lemma_joined_name(directory: Seq<u8>, name: Seq<u8>)
    requires
        plain_name(name),
    ensures
        file_name_of(joined(directory, name)) == Some(name),
        parent_of(joined(directory, name)) is Some,
{
    let path = joined(directory, name);
    let start = body_start(path);
    let body = path.skip(start);
    lemma_no_separator(name);
    assert(piece(name) == seq![Component::Normal(name)]) by {
        assert(name.len() != seq![DOT].len() && name.len() != seq![DOT, DOT].len());
    }
    if directory.len() == 0 {
        assert(path =~= name);
        assert(body =~= name);
    } else if directory.last() != SEPARATOR {
        assert(body =~= directory.skip(start) + seq![SEPARATOR] + name);
        lemma_pieces_split(directory.skip(start), name);
    } else if directory.len() == 1 {
        assert(body =~= name);
    } else {
        let front = directory.drop_last().skip(start);
        assert(body =~= front + seq![SEPARATOR] + name);
        lemma_pieces_split(front, name);
    }
    assert(components(path).last() == Component::Normal(name));
    law_parent_drops_last_component(path);
}

proof fn lemma_component_order(a: Component, b: Component)
    ensures
        component_less(a, b) ==> !component_less(b, a) && a != b,
        !component_less(a, b) && !component_less(b, a) ==> a == b,
{
    if let (Component::Normal(x), Component::Normal(y)) = (a, b) {
        lemma_bytes_order(x, y);
    }
}

proof fn lemma_component_transitive(a: Component, b: Component, c: Component)
    requires
        component_less(a, b),
        component_less(b, c),
    ensures
        component_less(a, c),
{
    if let (Component::Normal(x), Component::Normal(y), Component::Normal(z)) = (a, b, c) {
        lemma_bytes_transitive(x, y, z);
    }
}

proof fn lemma_components_order(a: Seq<Component>, b: Seq<Component>)
    ensures
        components_less(a, b) ==> !components_less(b, a) && a != b,
        !components_less(a, b) && !components_less(b, a) ==> a == b,
    decreases a.len(),
{
    if a.len() > 0 && b.len() > 0 {
        lemma_component_order(a[0], b[0]);
        if a[0] == b[0] {
            lemma_components_order(a.drop_first(), b.drop_first());
            if a.drop_first() == b.drop_first() {
                assert(a =~= seq![a[0]] + a.drop_first());
                assert(b =~= seq![b[0]] + b.drop_first());
            }
        }
    } else if a.len() == 0 && b.len() == 0 {
        assert(a =~= b);
    }
}

proof fn lemma_components_transitive(
    a: Seq<Component>,
    b: Seq<Component>,
    c: Seq<Component>,
)
    requires
        components_less(a, b),
        components_less(b, c),
    ensures
        components_less(a, c),
    decreases a.len(),
{
    if a.len() > 0 && b.len() > 0 && c.len() > 0 {
        if a[0] == b[0] && b[0] == c[0] {
            lemma_components_transitive(a.drop_first(), b.drop_first(), c.drop_first());
        } else if a[0] != b[0] && b[0] != c[0] {
            lemma_component_transitive(a[0], b[0], c[0]);
            lemma_component_order(a[0], c[0]);
        }
    }
}

/// Law: the order of paths is strict and total: of two paths one comes first, or they are the
/// same path.
pub proof fn law_path_order_is_total(a: Seq<u8>, b: Seq<u8>)
    ensures
        path_less(a, b) ==> !path_less(b, a) && !same_path(a, b),
        path_less(a, b) || path_less(b, a) || same_path(a, b),
{
    lemma_components_order(components(a), components(b));
}

/// Law: the order of paths is transitive.
pub proof fn law_path_order_is_transitive(a: Seq<u8>, b: Seq<u8>, c: Seq<u8>)
    requires
        path_less(a, b),
        path_less(b, c),
    ensures
        path_less(a, c),
{
    lemma_components_transitive(components(a), components(b), components(c));
}

/// Law: the components of a path are the names between its separators. An empty name and `.` count
/// for nothing, `..` for the parent, and any other name for itself, byte for byte. A separator at
/// the start is the root, and a relative path that starts with `.` keeps it.
pub proof fn law_components_are_the_names(name: Seq<u8>, a: Seq<u8>, b: Seq<u8>)
    ensures
        is_absolute(a) <==> a.len() > 0 && a[0] == 47,
        pieces(Seq::<u8>::empty()) == Seq::<Component>::empty(),
        pieces(seq![46u8]) == Seq::<Component>::empty(),
        pieces(seq![46u8, 46u8]) == seq![Component::ParentDir],
        name.len() > 0 && name != seq![46u8] && name != seq![46u8, 46u8] && !name.contains(47u8)
            ==> pieces(name) == seq![Component::Normal(name)],
        pieces(a + seq![47u8] + b) == pieces(a) + pieces(b),
        components(seq![47u8] + b) == seq![Component::RootDir] + pieces(b),
        !is_absolute(b) && !(b.len() > 0 && b[0] == 46 && (b.len() == 1 || b[1] == 47))
            ==> components(b) == pieces(b),
        b.len() > 0 && b[0] == 46 && (b.len() == 1 || b[1] == 47) ==> components(b) == seq![
            Component::CurDir,
        ] + pieces(b.skip(1)),
{
    let none = Seq::<u8>::empty();
    lemma_no_separator(none);
    assert(pieces(none) =~= Seq::<Component>::empty());
    lemma_no_separator(seq![46u8]);
    assert(pieces(seq![46u8]) =~= Seq::<Component>::empty());
    lemma_no_separator(seq![46u8, 46u8]);
    assert(seq![46u8, 46u8].len() != seq![46u8].len());
    assert(pieces(seq![46u8, 46u8]) =~= seq![Component::ParentDir]);
    if !name.contains(47u8) {
        assert forall|i: int| 0 <= i < name.len() implies #[trigger] name[i] != SEPARATOR by {
            assert(name.contains(name[i]));
        }
        lemma_no_separator(name);
    }
    lemma_pieces_split(a, b);
    assert((seq![47u8] + b).skip(1) =~= b);
    assert(b.skip(0) =~= b);
    assert(Seq::<Component>::empty() + pieces(b) =~= pieces(b));
}

/// Law: two paths are the same exactly when they have the same components. Optional paths are the
/// same when both are missing or both are the same path, and lists when they are, one by one.
pub proof fn law_same_paths(
    a: Seq<u8>,
    b: Seq<u8>,
    list: Seq<Seq<u8>>,
    other: Seq<Seq<u8>>,
    x: Option<Seq<u8>>,
    y: Option<Seq<u8>>,
)
    ensures
        same_path(a, b) <==> components(a) == components(b),
        same_option(x, y) <==> (x is None && y is None) || (x is Some && y is Some && components(
            x->0,
        ) == components(y->0)),
        same_paths(list, other) <==> list.len() == other.len() && forall|i: int|
            0 <= i < list.len() ==> components(#[trigger] list[i]) == components(other[i]),
        lists_path(list, a) <==> exists|i: int|
            0 <= i < list.len() && components(#[trigger] list[i]) == components(a),
{
    if exists|i: int| 0 <= i < list.len() && components(#[trigger] list[i]) == components(a) {
        let i = choose|i: int|
            0 <= i < list.len() && components(#[trigger] list[i]) == components(a);
        assert(same_path(list[i], a));
    }
    if list.len() == other.len() && forall|i: int|
        0 <= i < list.len() ==> components(#[trigger] list[i]) == components(other[i]) {
        assert forall|i: int| 0 <= i < list.len() implies same_path(
            #[trigger] list[i],
            other[i],
        ) by {}
    }
    if same_paths(list, other) {
        assert forall|i: int| 0 <= i < list.len() implies components(#[trigger] list[i])
            == components(other[i]) by {
            assert(same_path(list[i], other[i]));
        }
    }
}

/// Law: joining keeps the text of both paths: an absolute path stands alone, and a relative one
/// follows the base with one separator between them where the base does not end in one.
pub proof fn law_join_keeps_the_text(base: Seq<u8>, path: Seq<u8>)
    ensures
        ({
            let whole = joined(base, path);
            &&& path.len() > 0 && path[0] == 47 ==> whole == path
            &&& !(path.len() > 0 && path[0] == 47) ==> {
                &&& whole.take(base.len() as int) == base
                &&& whole.skip(whole.len() - path.len()) == path
                &&& base.len() == 0 || base[base.len() - 1] == 47 ==> whole.len() == base.len()
                    + path.len()
                &&& base.len() > 0 && base[base.len() - 1] != 47 ==> whole.len() == base.len() + 1
                    + path.len() && whole[base.len() as int] == 47
            }
        }),
{
    let whole = joined(base, path);
    if !is_absolute(path) {
        assert(whole.take(base.len() as int) =~= base);
        assert(whole.skip(whole.len() - path.len()) =~= path);
    }
}

/// Law: the name of a file is the last component where it is a name, and there is none else. In a
/// directory it is the name that was joined.
pub proof fn law_file_names(path: Seq<u8>, name: Seq<u8>)
    ensures
        file_name_of(path) == Some(name) <==> components(path).len() > 0 && components(path).last()
            == Component::Normal(name),
        plain_name(name) ==> file_name_of(joined(path, name)) == Some(name),
{
    if plain_name(name) {
        lemma_joined_name(path, name);
    }
}

/// Law: paths in one directory are listed by the bytes of their names, and a directory comes
/// before what lies in it.
pub proof fn law_listing_order(directory: Seq<u8>, a: Seq<u8>, b: Seq<u8>)
    requires
        is_absolute(directory),
        plain_name(a),
        plain_name(b),
    ensures
        path_less(joined(directory, a), joined(directory, b)) <==> bytes_less(a, b),
        path_less(directory, joined(directory, a)),
{
    law_join_components(directory, a);
    law_join_components(directory, b);
    lemma_no_separator(a);
    lemma_no_separator(b);
    assert(a.len() != seq![DOT].len() && a.len() != seq![DOT, DOT].len());
    assert(b.len() != seq![DOT].len() && b.len() != seq![DOT, DOT].len());
    let same = components(directory);
    lemma_components_behind_same(same, pieces(a), pieces(b));
    lemma_components_behind_same(same, Seq::empty(), pieces(a));
    assert(same + Seq::<Component>::empty() =~= same);
    let x = pieces(a);
    let y = pieces(b);
    assert(x.len() == 1 && y.len() == 1);
    if a == b {
        lemma_bytes_order(a, b);
    } else {
        assert(x[0] != y[0]);
    }
    assert(!components_less(x.drop_first(), y.drop_first()));
}

proof fn lemma_components_behind_same(
    same: Seq<Component>,
    a: Seq<Component>,
    b: Seq<Component>,
)
    ensures
        components_less(same + a, same + b) <==> components_less(a, b),
    decreases same.len(),
{
    if same.len() == 0 {
        assert(same + a =~= a);
        assert(same + b =~= b);
    } else {
        lemma_components_behind_same(same.drop_first(), a, b);
        assert((same + a).drop_first() =~= same.drop_first() + a);
        assert((same + b).drop_first() =~= same.drop_first() + b);
        assert((same + a)[0] == (same + b)[0]);
    }
}

/// Law: the kinds of component are ordered: the root, then `.`, then `..`, then names.
pub proof fn law_component_kinds(name: Seq<u8>, other: Seq<u8>)
    ensures
        component_less(Component::RootDir, Component::CurDir),
        component_less(Component::CurDir, Component::ParentDir),
        component_less(Component::ParentDir, Component::Normal(name)),
        component_less(Component::Normal(name), Component::Normal(other)) <==> bytes_less(
            name,
            other,
        ),
{
}

/// Law: paths are listed by the first component in which they differ, whatever follows it; one
/// that ends there comes first.
pub proof fn law_first_different_component_decides(
    same: Seq<Component>,
    x: Component,
    y: Component,
    a: Seq<Component>,
    b: Seq<Component>,
    p: Seq<u8>,
    q: Seq<u8>,
)
    ensures
        x != y ==> (components_less(same + (seq![x] + a), same + (seq![y] + b)) <==> component_less(
            x,
            y,
        )),
        components_less(same, same + (seq![x] + a)),
        !components_less(same + (seq![x] + a), same),
        path_less(p, q) <==> components_less(components(p), components(q)),
{
    let none = Seq::<Component>::empty();
    lemma_components_behind_same(same, seq![x] + a, seq![y] + b);
    lemma_components_behind_same(same, none, seq![x] + a);
    lemma_components_behind_same(same, seq![x] + a, none);
    assert(same + none =~= same);
    assert((seq![x] + a)[0] == x && (seq![y] + b)[0] == y);
}

} // verus!
