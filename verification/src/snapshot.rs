//! A snapshot of one buffer.

use vstd::prelude::*;
use vstd::utf8::encode_utf8;

use crate::paths::{
    clone_option, components, is_absolute, joined, law_join_components, path_option, pieces,
    NativePath,
};
use crate::text::{rope_clone, rope_len_bytes, rope_len_chars, rope_text};

verus! {

/// The full text of a buffer with what is needed to restore it.
#[derive(Debug)]
pub struct Snapshot {
    /// Relative originals are interpreted against `cwd`; writes resolve symlinks
    /// and store the absolute target. Reads retain that saved identity unchanged.
    pub path: Option<NativePath>,
    /// Must be absolute, including for unnamed buffers.
    pub cwd: NativePath,
    pub text: ropey::Rope,
    pub encoding: String,
    pub has_bom: bool,
    pub line_ending: String,
    /// Anchor/head character offsets, not byte offsets.
    pub selections: Vec<(usize, usize)>,
    pub primary: usize,
}

/// What a snapshot stands for.
#[verifier::ext_equal]
pub struct SnapshotView {
    pub path: Option<Seq<u8>>,
    pub cwd: Seq<u8>,
    pub text: Seq<char>,
    pub encoding: Seq<char>,
    pub has_bom: bool,
    pub line_ending: Seq<char>,
    pub selections: Seq<(usize, usize)>,
    pub primary: usize,
}

impl View for Snapshot {
    type V = SnapshotView;

    open spec fn view(&self) -> SnapshotView {
        SnapshotView {
            path: path_option(self.path),
            cwd: self.cwd@,
            text: rope_text(self.text),
            encoding: self.encoding@,
            has_bom: self.has_bom,
            line_ending: self.line_ending@,
            selections: self.selections@,
            primary: self.primary,
        }
    }
}

/// Why a snapshot is refused.
#[derive(Debug, Clone, Copy, PartialEq, Eq, Structural)]
pub enum SnapshotError {
    RelativeCwd,
    NulInPath,
    PrimarySelection,
    SelectionOutsideText,
}

/// Every selection lies within a text of `length` characters.
pub open spec fn selections_fit(selections: Seq<(usize, usize)>, length: nat) -> bool {
    forall|i: int|
        0 <= i < selections.len() ==> (#[trigger] selections[i]).0 <= length && selections[i].1
            <= length
}

/// What is wrong with a snapshot, the first fault in this order.
pub open spec fn snapshot_fault(s: SnapshotView) -> Option<SnapshotError> {
    if !is_absolute(s.cwd) {
        Some(SnapshotError::RelativeCwd)
    } else if s.cwd.contains(0u8) || (s.path is Some && s.path->0.contains(0u8)) {
        Some(SnapshotError::NulInPath)
    } else if s.primary >= s.selections.len() {
        Some(SnapshotError::PrimarySelection)
    } else if !selections_fit(s.selections, s.text.len()) {
        Some(SnapshotError::SelectionOutsideText)
    } else {
        None
    }
}

/// The number of bytes of a snapshot's text in UTF-8.
pub open spec fn text_size(s: SnapshotView) -> nat {
    encode_utf8(s.text).len()
}

/// A size limit of zero means none.
pub open spec fn over_threshold(size: nat, threshold: usize) -> bool {
    threshold != 0 && size > threshold
}

pub fn clone_selections(selections: &Vec<(usize, usize)>) -> (r: Vec<(usize, usize)>)
    ensures
        r@ == selections@,
{
    let mut out: Vec<(usize, usize)> = Vec::new();
    let mut i: usize = 0;
    while i < selections.len()
        invariant
            i <= selections@.len(),
            out@ == selections@.take(i as int),
        decreases selections@.len() - i,
    {
        out.push(selections[i]);
        assert(selections@.take(i + 1) =~= selections@.take(i as int).push(selections@[i as int]));
        i = i + 1;
    }
    assert(selections@.take(i as int) =~= selections@);
    out
}

impl Clone for Snapshot {
    fn clone(&self) -> (r: Snapshot)
        ensures
            r@ == self@,
    {
        Snapshot {
            path: clone_option(&self.path),
            cwd: self.cwd.clone(),
            text: rope_clone(&self.text),
            encoding: self.encoding.clone(),
            has_bom: self.has_bom,
            line_ending: self.line_ending.clone(),
            selections: clone_selections(&self.selections),
            primary: self.primary,
        }
    }
}

impl Snapshot {
    pub fn validate(&self) -> (r: Result<(), SnapshotError>)
        ensures
            match r {
                Ok(()) => snapshot_fault(self@) is None,
                Err(e) => snapshot_fault(self@) == Some(e),
            },
    {
        if !self.cwd.is_absolute() {
            return Err(SnapshotError::RelativeCwd);
        }
        let nul = self.cwd.has_nul() || match &self.path {
            Some(path) => path.has_nul(),
            None => false,
        };
        if nul {
            return Err(SnapshotError::NulInPath);
        }
        if self.primary >= self.selections.len() {
            return Err(SnapshotError::PrimarySelection);
        }
        let length = rope_len_chars(&self.text);
        let mut i: usize = 0;
        while i < self.selections.len()
            invariant
                i <= self.selections@.len(),
                length == rope_text(self.text).len(),
                forall|k: int|
                    0 <= k < i ==> (#[trigger] self.selections@[k]).0 <= length
                        && self.selections@[k].1 <= length,
                snapshot_fault(self@) is Some <==> !selections_fit(
                    self.selections@,
                    length as nat,
                ),
                snapshot_fault(self@) is Some ==> snapshot_fault(self@)
                    == Some(SnapshotError::SelectionOutsideText),
            decreases self.selections@.len() - i,
        {
            let selection = self.selections[i];
            if selection.0 > length || selection.1 > length {
                assert(!selections_fit(self.selections@, length as nat)) by {
                    assert(self.selections@[i as int] == selection);
                }
                return Err(SnapshotError::SelectionOutsideText);
            }
            i = i + 1;
        }
        Ok(())
    }

    /// Whether the text is larger than a size limit.
    pub fn exceeds(&self, threshold: usize) -> (r: bool)
        ensures
            r == over_threshold(text_size(self@), threshold),
    {
        threshold != 0 && rope_len_bytes(&self.text) > threshold
    }

    /// The same snapshot of a buffer whose original is at `path`.
    pub fn at_path(&self, path: Option<NativePath>) -> (r: Snapshot)
        ensures
            r@ == (SnapshotView { path: path_option(path), ..self@ }),
    {
        let mut r = self.clone();
        r.path = path;
        r
    }

    /// The file that the buffer was read from, if it is named.
    pub fn original_file(&self) -> (r: Option<NativePath>)
        ensures
            path_option(r) == original_file_of(self@),
    {
        match &self.path {
            Some(path) => Some(self.cwd.join(path)),
            None => None,
        }
    }
}

pub open spec fn original_file_of(s: SnapshotView) -> Option<Seq<u8>> {
    match s.path {
        Some(path) => Some(joined(s.cwd, path)),
        None => None,
    }
}

/// Law: a snapshot is in order exactly when its working directory is absolute, no path holds a
/// NUL, the primary selection is one of the selections, and every anchor and every head lies
/// within the text, its end included. What is wrong is told in this order.
pub proof fn law_snapshot_is_in_order(s: SnapshotView)
    ensures
        ({
            let absolute = s.cwd.len() > 0 && s.cwd[0] == 47;
            let nul = (exists|i: int| 0 <= i < s.cwd.len() && #[trigger] s.cwd[i] == 0) || (
            s.path is Some && exists|i: int|
                0 <= i < s.path->0.len() && #[trigger] (s.path->0)[i] == 0);
            let inside = forall|i: int|
                0 <= i < s.selections.len() ==> (#[trigger] s.selections[i]).0 <= s.text.len()
                    && s.selections[i].1 <= s.text.len();
            let primary = s.primary < s.selections.len();
            &&& snapshot_fault(s) is None <==> absolute && !nul && primary && inside
            &&& snapshot_fault(s) == Some(SnapshotError::RelativeCwd) <==> !absolute
            &&& snapshot_fault(s) == Some(SnapshotError::NulInPath) <==> absolute && nul
            &&& snapshot_fault(s) == Some(SnapshotError::PrimarySelection) <==> absolute && !nul
                && !primary
            &&& snapshot_fault(s) == Some(SnapshotError::SelectionOutsideText) <==> absolute && !nul
                && primary && !inside
        }),
{
    assert(s.cwd.contains(0u8) <==> exists|i: int|
        0 <= i < s.cwd.len() && #[trigger] s.cwd[i] == 0);
    if let Some(path) = s.path {
        assert(path.contains(0u8) <==> exists|i: int| 0 <= i < path.len() && #[trigger] path[i]
            == 0);
    }
}

/// Law: a cursor may stand anywhere from the start to the end of the text, and a longer text
/// keeps every selection in order.
pub proof fn law_selections_reach_the_end_of_the_text(
    s: SnapshotView,
    at: usize,
    longer: Seq<char>,
)
    requires
        snapshot_fault(s) is None,
    ensures
        at <= s.text.len() ==> snapshot_fault(
            (SnapshotView { selections: seq![(at, at)], primary: 0, ..s }),
        ) is None,
        at > s.text.len() ==> snapshot_fault(
            (SnapshotView { selections: s.selections.push((at, 0)), ..s }),
        ) is Some && snapshot_fault(
            (SnapshotView { selections: s.selections.push((0, at)), ..s }),
        ) is Some,
        longer.len() >= s.text.len() ==> snapshot_fault(
            (SnapshotView { text: longer, ..s }),
        ) is None,
{
    if at > s.text.len() {
        let n = s.selections.len() as int;
        assert(s.selections.push((at, 0))[n] == (at, 0usize));
        assert(s.selections.push((0, at))[n] == (0usize, at));
    }
}

/// Law: the size of a snapshot is that of its text in UTF-8, and a limit of zero holds nothing
/// back. Any other limit holds back exactly what is larger, so a text of just that size is written.
pub proof fn law_size_limit(s: SnapshotView, threshold: usize)
    ensures
        text_size(s) == encode_utf8(s.text).len(),
        over_threshold(text_size(s), threshold) <==> threshold > 0 && encode_utf8(s.text).len()
            > threshold,
{
}

/// Law: the original of a named buffer is its path, read against the working directory where it
/// is relative; an unnamed one has none.
pub proof fn law_original_file(s: SnapshotView)
    requires
        is_absolute(s.cwd),
    ensures
        original_file_of(s) is None <==> s.path is None,
        s.path matches Some(path) ==> {
            &&& is_absolute(path) ==> original_file_of(s) == Some(path)
            &&& !is_absolute(path) ==> components(original_file_of(s)->0) == components(s.cwd)
                + pieces(path)
        },
{
    if let Some(path) = s.path {
        law_join_components(s.cwd, path);
    }
}

} // verus!
