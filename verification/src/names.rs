//! The names of recovery files, of temporary files and of backups.

use vstd::prelude::*;
use vstd::utf8::{decode_utf8, encode_utf8, is_ascii_chars, valid_utf8};

use crate::bytes::{
    append_bytes, begins_with, copy_bytes, copy_range, ends_with, finishes_with, starts_with,
};
use crate::config::{safe_char, suffix_number};
use crate::paths::{
    file_name_of, joined, lemma_joined_name, path_option, plain_name, NativePath, SEPARATOR,
};
use crate::text::utf8_text;

verus! {

/// Active recovery files.
pub const PREFIX: &'static str = ".helix-recovery-";

/// Files that are not published yet.
pub const TEMP_PREFIX: &'static str = ".helix-pending-";

/// Backups of recovered originals.
pub const ARCHIVE_PREFIX: &'static str = ".helix-recovered-";

pub const ARCHIVE_SUFFIX: &'static str = ".recovered";

/// Permissions of every file that is created.
pub const FILE_MODE: u32 = 0o600;

/// Permissions of the state directory where it is created.
pub const DIRECTORY_MODE: u32 = 0o700;

/// Random characters between the prefix and the suffix of a temporary file's name.
pub const RANDOM_LENGTH: usize = 16;

/// Most characters of the original's name that a recovery file's name repeats.
pub const DESCRIPTION_LENGTH: usize = 40;

pub open spec fn described_char(c: char) -> u8 {
    if safe_char(c) {
        c as u8
    } else {
        95
    }
}

/// The start of a name with every unsafe character replaced by `_`.
pub open spec fn described_text(text: Seq<char>) -> Seq<u8> {
    Seq::new(
        if text.len() < DESCRIPTION_LENGTH {
            text.len()
        } else {
            DESCRIPTION_LENGTH as nat
        },
        |i: int| described_char(text[i]),
    )
}

/// What a recovery file's name says of the original.
pub open spec fn description_of(path: Option<Seq<u8>>) -> Seq<u8> {
    let name = match path {
        Some(p) => file_name_of(p),
        None => None,
    };
    if name is Some && valid_utf8(name->0) {
        described_text(decode_utf8(name->0))
    } else {
        described_text("unnamed"@)
    }
}

fn describe(text: &str) -> (r: Vec<u8>)
    ensures
        r@ == described_text(text@),
{
    let total = text.unicode_len();
    let count = if total < DESCRIPTION_LENGTH {
        total
    } else {
        DESCRIPTION_LENGTH
    };
    let mut out: Vec<u8> = Vec::new();
    let mut i: usize = 0;
    while i < count
        invariant
            i <= count <= text@.len(),
            count == described_text(text@).len(),
            out@.len() == i,
            forall|k: int| 0 <= k < i ==> #[trigger] out@[k] == described_char(text@[k]),
        decreases count - i,
    {
        let c = text.get_char(i);
        let safe = (c >= 'a' && c <= 'z') || (c >= 'A' && c <= 'Z') || (c >= '0' && c <= '9') || c
            == '.' || c == '_' || c == '-';
        if safe {
            out.push(c as u8);
        } else {
            out.push(95);
        }
        i = i + 1;
    }
    assert(out@ =~= described_text(text@));
    out
}

/// What a recovery file's name says of the original at `path`.
pub fn description(path: &Option<NativePath>) -> (r: Vec<u8>)
    ensures
        r@ == description_of(path_option(*path)),
{
    let name = match path {
        Some(p) => p.file_name(),
        None => None,
    };
    match name {
        Some(name) => match utf8_text(name.as_slice()) {
            Some(text) => describe(text.as_str()),
            None => describe("unnamed"),
        },
        None => describe("unnamed"),
    }
}

/// How the name of a temporary file for the original at `path` starts.
pub open spec fn staging_prefix_of(path: Option<Seq<u8>>) -> Seq<u8> {
    encode_utf8(TEMP_PREFIX@) + description_of(path) + seq![45u8]
}

pub fn staging_prefix(path: &Option<NativePath>) -> (r: Vec<u8>)
    ensures
        r@ == staging_prefix_of(path_option(*path)),
{
    let mut out = copy_bytes(TEMP_PREFIX.as_bytes());
    let tail = description(path);
    append_bytes(&mut out, tail.as_slice());
    out.push(45);
    assert(out@ =~= staging_prefix_of(path_option(*path)));
    out
}

/// The name of a temporary file.
pub open spec fn is_temporary(name: Seq<u8>) -> bool {
    begins_with(name, encode_utf8(TEMP_PREFIX@))
}

pub fn temporary_name(name: &[u8]) -> (r: bool)
    ensures
        r == is_temporary(name@),
{
    starts_with(name, TEMP_PREFIX.as_bytes())
}

/// A temporary file's name with another prefix.
pub open spec fn renamed(name: Seq<u8>, prefix: Seq<u8>) -> Seq<u8> {
    prefix + name.skip(encode_utf8(TEMP_PREFIX@).len() as int)
}

/// The name under which a temporary file is published.
pub open spec fn published_name_of(name: Seq<u8>) -> Seq<u8> {
    renamed(name, encode_utf8(PREFIX@))
}

/// The name under which a temporary copy becomes a backup.
pub open spec fn archive_name_of(name: Seq<u8>) -> Seq<u8> {
    renamed(name, encode_utf8(ARCHIVE_PREFIX@))
}

fn rename(name: &[u8], prefix: &str) -> (r: NativePath)
    requires
        is_temporary(name@),
    ensures
        r@ == renamed(name@, encode_utf8(prefix@)),
{
    let mut out = copy_bytes(prefix.as_bytes());
    let cut = TEMP_PREFIX.as_bytes().len();
    let rest = copy_range(name, cut, name.len());
    append_bytes(&mut out, rest.as_slice());
    assert(out@ =~= renamed(name@, encode_utf8(prefix@)));
    NativePath::new(out)
}

pub fn published_name(name: &[u8]) -> (r: NativePath)
    requires
        is_temporary(name@),
    ensures
        r@ == published_name_of(name@),
{
    rename(name, PREFIX)
}

pub fn archive_name(name: &[u8]) -> (r: NativePath)
    requires
        is_temporary(name@),
    ensures
        r@ == archive_name_of(name@),
{
    rename(name, ARCHIVE_PREFIX)
}

/// Whether a path's file name is that of a backup.
pub open spec fn is_archive(path: Seq<u8>) -> bool {
    let name = file_name_of(path);
    name is Some && valid_utf8(name->0) && begins_with(name->0, encode_utf8(ARCHIVE_PREFIX@))
}

pub fn archive_path(path: &NativePath) -> (r: bool)
    ensures
        r == is_archive(path@),
{
    match path.file_name() {
        Some(name) => utf8_text(name.as_slice()).is_some() && starts_with(
            name.as_slice(),
            ARCHIVE_PREFIX.as_bytes(),
        ),
        None => false,
    }
}

/// Whether discovery looks into a directory entry of this name.
pub open spec fn is_offered(name: Seq<u8>, suffix: Seq<char>) -> bool {
    &&& valid_utf8(name)
    &&& begins_with(name, encode_utf8(PREFIX@))
    &&& finishes_with(name, encode_utf8(suffix))
}

pub fn offers(name: &[u8], suffix: &str) -> (r: bool)
    ensures
        r == is_offered(name@, suffix@),
{
    utf8_text(name).is_some() && starts_with(name, PREFIX.as_bytes()) && ends_with(
        name,
        suffix.as_bytes(),
    )
}

proof fn lemma_prefixes()
    ensures
        encode_utf8(PREFIX@) == seq![
            46u8, 104u8, 101u8, 108u8, 105u8, 120u8, 45u8, 114u8, 101u8, 99u8, 111u8, 118u8, 101u8,
            114u8, 121u8, 45u8,
        ],
        encode_utf8(TEMP_PREFIX@).len() == 15,
        encode_utf8(TEMP_PREFIX@)[7] == 112u8,
        encode_utf8(ARCHIVE_PREFIX@) == seq![
            46u8, 104u8, 101u8, 108u8, 105u8, 120u8, 45u8, 114u8, 101u8, 99u8, 111u8, 118u8, 101u8,
            114u8, 101u8, 100u8, 45u8,
        ],
{
    reveal_strlit(".helix-recovery-");
    reveal_strlit(".helix-pending-");
    reveal_strlit(".helix-recovered-");
    vstd::utf8::is_ascii_chars_encode_utf8(PREFIX@);
    vstd::utf8::is_ascii_chars_encode_utf8(TEMP_PREFIX@);
    vstd::utf8::is_ascii_chars_encode_utf8(ARCHIVE_PREFIX@);
    assert(encode_utf8(PREFIX@) =~= seq![
        46u8, 104u8, 101u8, 108u8, 105u8, 120u8, 45u8, 114u8, 101u8, 99u8, 111u8, 118u8, 101u8,
        114u8, 121u8, 45u8,
    ]);
    assert(encode_utf8(ARCHIVE_PREFIX@) =~= seq![
        46u8, 104u8, 101u8, 108u8, 105u8, 120u8, 45u8, 114u8, 101u8, 99u8, 111u8, 118u8, 101u8,
        114u8, 101u8, 100u8, 45u8,
    ]);
}

/// A temporary file under another prefix of the library still has a plain name.
pub proof fn lemma_renamed(name: Seq<u8>, prefix: Seq<u8>)
    requires
        is_temporary(name),
        !name.contains(SEPARATOR),
        prefix == encode_utf8(PREFIX@) || prefix == encode_utf8(ARCHIVE_PREFIX@),
    ensures
        plain_name(renamed(name, prefix)),
{
    lemma_prefixes();
    let file = renamed(name, prefix);
    assert forall|i: int| 0 <= i < file.len() implies file[i] != SEPARATOR by {
        if i >= prefix.len() {
            let j = i - prefix.len() + encode_utf8(TEMP_PREFIX@).len();
            assert(file[i] == name[j]);
            assert(name.contains(name[j]));
        }
    }
}

/// A published file is no backup, whatever directory it lies in.
pub proof fn lemma_published_is_no_archive(directory: Seq<u8>, name: Seq<u8>)
    requires
        is_temporary(name),
        !name.contains(SEPARATOR),
    ensures
        !is_archive(joined(directory, published_name_of(name))),
{
    let active = encode_utf8(PREFIX@);
    let file = published_name_of(name);
    lemma_renamed(name, active);
    lemma_joined_name(directory, file);
    lemma_prefixes();
    assert(file[14] == active[14]);
    if begins_with(file, encode_utf8(ARCHIVE_PREFIX@)) {
        assert(file[14] == file.take(17)[14]);
    }
}

/// Law: backups and files that are not published yet are never offered by discovery, whatever
/// the configured suffix.
pub proof fn law_only_active_files_are_offered(name: Seq<u8>, suffix: Seq<char>)
    requires
        is_temporary(name),
    ensures
        !is_offered(name, suffix),
        !is_offered(archive_name_of(name), suffix),
{
    lemma_prefixes();
    let active = encode_utf8(PREFIX@);
    assert(name[7] == name.take(15)[7]);
    if begins_with(name, active) {
        assert(name[7] == name.take(16)[7]);
    }
    let archive = archive_name_of(name);
    assert(archive[14] == encode_utf8(ARCHIVE_PREFIX@)[14]);
    if begins_with(archive, active) {
        assert(archive[14] == archive.take(16)[14]);
    }
}

proof fn lemma_encoded_sum(a: Seq<char>, b: Seq<char>)
    ensures
        encode_utf8(a + b) == encode_utf8(a) + encode_utf8(b),
    decreases a.len(),
{
    if a.len() == 0 {
        assert(a + b =~= b);
        assert(encode_utf8(a) + encode_utf8(b) =~= encode_utf8(b));
    } else {
        lemma_encoded_sum(a.drop_first(), b);
        assert((a + b).drop_first() =~= a.drop_first() + b);
        assert(encode_utf8(a + b) =~= encode_utf8(a) + encode_utf8(b));
    }
}

/// A description is text.
proof fn lemma_description(path: Option<Seq<u8>>) -> (text: Seq<char>)
    ensures
        description_of(path) == encode_utf8(text),
{
    let bytes = description_of(path);
    let text = Seq::new(bytes.len(), |i: int| bytes[i] as char);
    assert forall|i: int| 0 <= i < bytes.len() implies #[trigger] bytes[i] < 128 by {}
    assert(is_ascii_chars(text));
    vstd::utf8::is_ascii_chars_encode_utf8(text);
    assert forall|i: int| 0 <= i < bytes.len() implies #[trigger] encode_utf8(text)[i]
        == bytes[i] by {
        assert(text[i] as u8 == encode_utf8(text)[i]);
    }
    assert(bytes =~= encode_utf8(text));
    text
}

/// A temporary file's name as it is asked for: a prefix, some text and a suffix.
pub open spec fn named_between(prefix: Seq<u8>, text: Seq<char>, suffix: Seq<u8>) -> Seq<u8> {
    prefix + encode_utf8(text) + suffix
}

/// Law: what is staged under the prefix and suffix of a configuration is offered once it is
/// published, whatever the text between them.
pub proof fn law_published_files_are_offered(
    path: Option<Seq<u8>>,
    text: Seq<char>,
    suffix: Seq<char>,
)
    ensures
        is_offered(
            published_name_of(
                named_between(staging_prefix_of(path), text, encode_utf8(suffix)),
            ),
            suffix,
        ),
{
    let tail = encode_utf8(suffix);
    let name = named_between(staging_prefix_of(path), text, tail);
    let published = published_name_of(name);
    let active = encode_utf8(PREFIX@);
    assert(published.take(active.len() as int) =~= active);
    let cut = encode_utf8(TEMP_PREFIX@).len();
    assert(name.skip(cut as int) =~= description_of(path) + seq![45u8] + encode_utf8(text) + tail);
    assert(published.skip(published.len() - tail.len()) =~= tail);
    let described = lemma_description(path);
    let dash = seq!['-'];
    assert(is_ascii_chars(dash));
    vstd::utf8::is_ascii_chars_encode_utf8(dash);
    assert(dash[0] as u8 == 45u8);
    assert(encode_utf8(dash) =~= seq![45u8]);
    lemma_encoded_sum(PREFIX@, described);
    lemma_encoded_sum(PREFIX@ + described, dash);
    lemma_encoded_sum(PREFIX@ + described + dash, text);
    lemma_encoded_sum(PREFIX@ + described + dash + text, suffix);
    let whole = PREFIX@ + described + dash + text + suffix;
    assert(published =~= encode_utf8(whole));
    vstd::utf8::encode_utf8_valid_utf8(whole);
}

/// Law: the name of a recovery file says of its original at most the first 40 characters of its
/// name: ASCII letters, digits, dots, underscores and dashes as they are, and an underscore for
/// every other one. An original without a name that is text is called unnamed.
pub proof fn law_description(path: Option<Seq<u8>>, i: int)
    ensures
        ({
            let bytes = description_of(path);
            let name = match path {
                Some(p) => file_name_of(p),
                None => None,
            };
            let text = if name is Some && valid_utf8(name->0) {
                decode_utf8(name->0)
            } else {
                "unnamed"@
            };
            &&& bytes.len() <= 40 && bytes.len() <= text.len()
            &&& bytes.len() == 40 || bytes.len() == text.len()
            &&& 0 <= i < bytes.len() && suffix_number(text[i] as int) ==> bytes[i] == text[i] as int
            &&& 0 <= i < bytes.len() && !suffix_number(text[i] as int) ==> bytes[i] == 95
        }),
{
    let bytes = description_of(path);
    let name = match path {
        Some(p) => file_name_of(p),
        None => None,
    };
    let text = if name is Some && valid_utf8(name->0) {
        decode_utf8(name->0)
    } else {
        "unnamed"@
    };
    assert(bytes == described_text(text));
    if 0 <= i < bytes.len() {
        let c: char = text[i];
        assert(safe_char(c) <==> suffix_number(c as int));
        assert(bytes[i] == described_char(c));
    }
}

/// Law: a temporary file is named by the pending prefix, the description of its original and a
/// dash. Publishing replaces that prefix by the one of recovery files, and copying by the one of
/// backups; every byte behind it stays.
pub proof fn law_prefixes_are_exchanged(path: Option<Seq<u8>>, rest: Seq<u8>)
    ensures
        ({
            let pending = encode_utf8(".helix-pending-"@);
            let behind = description_of(path) + seq![45u8] + rest;
            let name = staging_prefix_of(path) + rest;
            &&& name == pending + behind
            &&& is_temporary(name)
            &&& published_name_of(name) == encode_utf8(".helix-recovery-"@) + behind
            &&& archive_name_of(name) == encode_utf8(".helix-recovered-"@) + behind
            &&& is_temporary(pending + rest)
        }),
{
    let pending = encode_utf8(".helix-pending-"@);
    let behind = description_of(path) + seq![45u8] + rest;
    let name = staging_prefix_of(path) + rest;
    assert(name =~= pending + behind);
    assert(name.skip(pending.len() as int) =~= behind);
    assert(name.take(pending.len() as int) =~= pending);
    assert((pending + rest).take(pending.len() as int) =~= pending);
}

/// Law: a search looks exactly into the entries whose name is text, starts with the prefix of
/// recovery files and ends with the configured suffix, and a backup is told by its name's prefix.
pub proof fn law_offered_names(name: Seq<u8>, suffix: Seq<char>, directory: Seq<u8>)
    ensures
        ({
            let prefix = encode_utf8(".helix-recovery-"@);
            let tail = encode_utf8(suffix);
            let backup = encode_utf8(".helix-recovered-"@);
            &&& is_offered(name, suffix) <==> {
                &&& valid_utf8(name)
                &&& name.len() >= prefix.len() && name.take(prefix.len() as int) == prefix
                &&& name.len() >= tail.len() && name.skip(name.len() - tail.len()) == tail
            }
            &&& plain_name(name) ==> (is_archive(joined(directory, name)) <==> valid_utf8(name)
                && name.len() >= backup.len() && name.take(backup.len() as int) == backup)
            &&& is_temporary(name) <==> {
                let pending = encode_utf8(".helix-pending-"@);
                name.len() >= pending.len() && name.take(pending.len() as int) == pending
            }
        }),
{
    if plain_name(name) {
        lemma_joined_name(directory, name);
    }
}

} // verus!
