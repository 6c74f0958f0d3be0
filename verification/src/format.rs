//! The file format: a magic string, a big-endian u32 header length, a bounded versioned header
//! and an exact-length UTF-8 payload.

use vstd::prelude::*;
use vstd::utf8::{decode_utf8, encode_utf8, valid_utf8};

use crate::bytes::{append_bytes, begins_with, copy_bytes, starts_with};
use crate::paths::NativePath;
use crate::snapshot::{
    clone_selections, snapshot_fault, text_size, Snapshot, SnapshotError, SnapshotView,
};
use crate::text::{rope_from_bytes, rope_len_bytes, rope_text, rope_write_to};

verus! {

pub const VERSION: u32 = 1;

pub const MAX_HEADER: usize = 65536;

pub const MAGIC: &'static str = "HELIX-RECOVERY\n";

/// Bytes before the header: the magic string and the header's length.
pub const PREAMBLE: usize = 19;

/// A path as its native units, so that it is stored without loss.
#[derive(Debug)]
pub enum StoredPath {
    Unix(Vec<u8>),
}

impl View for StoredPath {
    type V = Seq<u8>;

    open spec fn view(&self) -> Seq<u8> {
        match self {
            StoredPath::Unix(units) => units@,
        }
    }
}

impl StoredPath {
    pub fn encode(path: &NativePath) -> (r: StoredPath)
        ensures
            r@ == path@,
    {
        StoredPath::Unix(copy_bytes(path.units.as_slice()))
    }

    pub fn decode(self) -> (r: NativePath)
        ensures
            r@ == self@,
    {
        match self {
            StoredPath::Unix(units) => NativePath { units },
        }
    }

    /// The native units.
    pub fn units(&self) -> (r: &[u8])
        ensures
            r@ == self@,
    {
        match self {
            StoredPath::Unix(units) => units.as_slice(),
        }
    }
}

pub open spec fn stored_option(path: Option<StoredPath>) -> Option<Seq<u8>> {
    match path {
        Some(p) => Some(p@),
        None => None,
    }
}

/// The header of a recovery file.
#[derive(Debug)]
pub struct Header {
    pub version: u32,
    pub timestamp: u64,
    pub original_size: Option<u64>,
    pub original_modified: Option<u64>,
    pub path: Option<StoredPath>,
    pub cwd: StoredPath,
    pub payload_len: u64,
    pub encoding: String,
    pub has_bom: bool,
    pub line_ending: String,
    pub selections: Vec<(usize, usize)>,
    pub primary: usize,
}

/// What a header stands for.
#[verifier::ext_equal]
pub struct HeaderView {
    pub version: u32,
    pub timestamp: u64,
    pub original_size: Option<u64>,
    pub original_modified: Option<u64>,
    pub path: Option<Seq<u8>>,
    pub cwd: Seq<u8>,
    pub payload_len: u64,
    pub encoding: Seq<char>,
    pub has_bom: bool,
    pub line_ending: Seq<char>,
    pub selections: Seq<(usize, usize)>,
    pub primary: usize,
}

impl View for Header {
    type V = HeaderView;

    open spec fn view(&self) -> HeaderView {
        HeaderView {
            version: self.version,
            timestamp: self.timestamp,
            original_size: self.original_size,
            original_modified: self.original_modified,
            path: stored_option(self.path),
            cwd: self.cwd@,
            payload_len: self.payload_len,
            encoding: self.encoding@,
            has_bom: self.has_bom,
            line_ending: self.line_ending@,
            selections: self.selections@,
            primary: self.primary,
        }
    }
}

/// Saved header metadata. Times are seconds since the Unix epoch.
#[derive(Clone, Copy, Debug, PartialEq, Eq)]
pub struct RecoveryMetadata {
    pub timestamp: u64,
    pub original_size: Option<u64>,
    pub original_modified: Option<u64>,
}

/// The header of a snapshot that is written at `timestamp`.
pub open spec fn header_of(s: SnapshotView, facts: RecoveryMetadata) -> HeaderView {
    HeaderView {
        version: VERSION,
        timestamp: facts.timestamp,
        original_size: facts.original_size,
        original_modified: facts.original_modified,
        path: s.path,
        cwd: s.cwd,
        payload_len: text_size(s) as u64,
        encoding: s.encoding,
        has_bom: s.has_bom,
        line_ending: s.line_ending,
        selections: s.selections,
        primary: s.primary,
    }
}

impl Header {
    /// The header of a snapshot, with the time of writing and what is known of the original.
    pub fn new(snapshot: &Snapshot, facts: RecoveryMetadata) -> (r: Header)
        ensures
            r@ == header_of(snapshot@, facts),
    {
        Header {
            version: VERSION,
            timestamp: facts.timestamp,
            original_size: facts.original_size,
            original_modified: facts.original_modified,
            path: match &snapshot.path {
                Some(path) => Some(StoredPath::encode(path)),
                None => None,
            },
            cwd: StoredPath::encode(&snapshot.cwd),
            payload_len: rope_len_bytes(&snapshot.text) as u64,
            encoding: snapshot.encoding.clone(),
            has_bom: snapshot.has_bom,
            line_ending: snapshot.line_ending.clone(),
            selections: clone_selections(&snapshot.selections),
            primary: snapshot.primary,
        }
    }
}

/// The four bytes of a number, most significant first.
pub open spec fn big_endian(n: u32) -> Seq<u8> {
    seq![
        (n / 0x100_0000) as u8,
        (n / 0x1_0000 % 0x100) as u8,
        (n / 0x100 % 0x100) as u8,
        (n % 0x100) as u8,
    ]
}

/// The number that four bytes are, most significant first.
pub open spec fn from_big_endian(b: Seq<u8>) -> int {
    b[0] * 0x100_0000 + b[1] * 0x1_0000 + b[2] * 0x100 + b[3]
}

/// The bytes of the magic string.
pub open spec fn magic() -> Seq<u8> {
    encode_utf8(MAGIC@)
}

/// A whole file: preamble, header and text.
pub open spec fn file_image(header: Seq<u8>, text: Seq<char>) -> Seq<u8> {
    magic() + big_endian(header.len() as u32) + header + encode_utf8(text)
}

proof fn lemma_magic_len()
    ensures
        magic().len() == 15,
{
    reveal_strlit("HELIX-RECOVERY\n");
    vstd::utf8::is_ascii_chars_encode_utf8(MAGIC@);
}

/// Whether a header is no longer than a file may hold.
pub fn header_fits(header: &[u8]) -> (r: bool)
    ensures
        r == (header@.len() <= MAX_HEADER),
{
    header.len() <= MAX_HEADER
}

/// The bytes of a whole file.
pub fn encode_file(header: &[u8], text: &ropey::Rope) -> (r: Vec<u8>)
    requires
        header@.len() <= MAX_HEADER,
    ensures
        r@ == file_image(header@, rope_text(*text)),
{
    let mut out: Vec<u8> = copy_bytes(MAGIC.as_bytes());
    let n: u32 = header.len() as u32;
    out.push((n / 0x100_0000) as u8);
    out.push((n / 0x1_0000 % 0x100) as u8);
    out.push((n / 0x100 % 0x100) as u8);
    out.push((n % 0x100) as u8);
    assert(out@ =~= magic() + big_endian(n));
    append_bytes(&mut out, header);
    let _written = rope_write_to(text, &mut out);
    out
}

/// Why the header of a file is refused.
#[derive(Debug, Clone, Copy, PartialEq, Eq, Structural)]
pub enum HeaderError {
    Truncated,
    NotRecoveryFile,
    HeaderLength,
    UnsupportedVersion(u32),
    PayloadOverflow,
    PayloadMismatch,
}

/// The length of the header of a file that starts with these bytes.
pub open spec fn header_length_of(start: Seq<u8>) -> Result<usize, HeaderError> {
    if start.len() < magic().len() {
        Err(HeaderError::Truncated)
    } else if !begins_with(start, magic()) {
        Err(HeaderError::NotRecoveryFile)
    } else if start.len() < PREAMBLE {
        Err(HeaderError::Truncated)
    } else {
        let n = from_big_endian(start.subrange(magic().len() as int, PREAMBLE as int));
        if 0 < n <= MAX_HEADER {
            Ok(n as usize)
        } else {
            Err(HeaderError::HeaderLength)
        }
    }
}

/// The length of the header of a file whose first bytes, up to the preamble's length, are given.
pub fn header_length(start: &[u8]) -> (r: Result<usize, HeaderError>)
    ensures
        r == header_length_of(start@),
{
    proof {
        lemma_magic_len();
    }
    if start.len() < 15 {
        return Err(HeaderError::Truncated);
    }
    if !starts_with(start, MAGIC.as_bytes()) {
        return Err(HeaderError::NotRecoveryFile);
    }
    if start.len() < PREAMBLE {
        return Err(HeaderError::Truncated);
    }
    let n: usize = start[15] as usize * 0x100_0000 + start[16] as usize * 0x1_0000
        + start[17] as usize * 0x100 + start[18] as usize;
    assert(n == from_big_endian(start@.subrange(15, 19)));
    if n > 0 && n <= MAX_HEADER {
        Ok(n)
    } else {
        Err(HeaderError::HeaderLength)
    }
}

/// What is wrong with a header of `length` bytes in a file of `file_length` bytes.
pub open spec fn header_fault(header: HeaderView, length: nat, file_length: u64) -> Option<
    HeaderError,
> {
    let expected = PREAMBLE + length + header.payload_len;
    if header.version != VERSION {
        Some(HeaderError::UnsupportedVersion(header.version))
    } else if expected > u64::MAX {
        Some(HeaderError::PayloadOverflow)
    } else if file_length != expected {
        Some(HeaderError::PayloadMismatch)
    } else {
        None
    }
}

/// Checks a header that was parsed from `length` bytes of a file of `file_length` bytes.
pub fn read_header(header: &Header, length: usize, file_length: u64) -> (r: Result<
    (),
    HeaderError,
>)
    requires
        length <= MAX_HEADER,
    ensures
        match r {
            Ok(()) => header_fault(header@, length as nat, file_length) is None,
            Err(e) => header_fault(header@, length as nat, file_length) == Some(e),
        },
{
    if header.version != VERSION {
        return Err(HeaderError::UnsupportedVersion(header.version));
    }
    let start: u64 = PREAMBLE as u64 + length as u64;
    match start.checked_add(header.payload_len) {
        None => Err(HeaderError::PayloadOverflow),
        Some(expected) => if file_length == expected {
            Ok(())
        } else {
            Err(HeaderError::PayloadMismatch)
        },
    }
}

/// Why what follows a header is refused.
#[derive(Debug, Clone, Copy, PartialEq, Eq, Structural)]
pub enum DecodeError {
    InvalidText,
    TruncatedText,
    TrailingData,
    Invalid(SnapshotError),
}

/// The snapshot that a header and its text describe.
pub open spec fn described(header: HeaderView, text: Seq<char>) -> SnapshotView {
    SnapshotView {
        path: header.path,
        cwd: header.cwd,
        text,
        encoding: header.encoding,
        has_bom: header.has_bom,
        line_ending: header.line_ending,
        selections: header.selections,
        primary: header.primary,
    }
}

pub open spec fn metadata_of(header: HeaderView) -> RecoveryMetadata {
    RecoveryMetadata {
        timestamp: header.timestamp,
        original_size: header.original_size,
        original_modified: header.original_modified,
    }
}

/// The bytes behind the header that can be its payload.
pub open spec fn payload_of(header: HeaderView, rest: Seq<u8>) -> Seq<u8> {
    if rest.len() < header.payload_len {
        rest
    } else {
        rest.take(header.payload_len as int)
    }
}

/// What is wrong with the bytes `rest` behind a header.
pub open spec fn decode_fault(header: HeaderView, rest: Seq<u8>) -> Option<DecodeError> {
    let payload = payload_of(header, rest);
    if !valid_utf8(payload) {
        Some(DecodeError::InvalidText)
    } else if rest.len() < header.payload_len {
        Some(DecodeError::TruncatedText)
    } else if rest.len() > header.payload_len {
        Some(DecodeError::TrailingData)
    } else {
        match snapshot_fault(described(header, decode_utf8(rest))) {
            Some(e) => Some(DecodeError::Invalid(e)),
            None => None,
        }
    }
}

/// Decodes the bytes `rest` that follow a header, all that the file holds there.
fn decode_payload(header: Header, rest: &[u8]) -> (r: Result<
    (Snapshot, RecoveryMetadata),
    DecodeError,
>)
    ensures
        match r {
            Ok((snapshot, metadata)) => {
                &&& decode_fault(header@, rest@) is None
                &&& snapshot@ == described(header@, decode_utf8(rest@))
                &&& metadata == metadata_of(header@)
            },
            Err(e) => decode_fault(header@, rest@) == Some(e),
        },
{
    let metadata = RecoveryMetadata {
        timestamp: header.timestamp,
        original_size: header.original_size,
        original_modified: header.original_modified,
    };
    let payload_len = header.payload_len;
    let short = (rest.len() as u64) < payload_len;
    let parsed = if short {
        rope_from_bytes(rest)
    } else {
        rope_from_bytes(vstd::slice::slice_subrange(rest, 0, payload_len as usize))
    };
    assert(!short ==> rest@.subrange(0, payload_len as int) =~= payload_of(header@, rest@));
    let text = match parsed {
        Ok(text) => text,
        Err(_) => {
            return Err(DecodeError::InvalidText);
        },
    };
    if short {
        return Err(DecodeError::TruncatedText);
    }
    if rest.len() as u64 > payload_len {
        return Err(DecodeError::TrailingData);
    }
    assert(payload_of(header@, rest@) =~= rest@);
    let ghost view = header@;
    let snapshot = Snapshot {
        path: match header.path {
            Some(path) => Some(path.decode()),
            None => None,
        },
        cwd: header.cwd.decode(),
        text,
        encoding: header.encoding,
        has_bom: header.has_bom,
        line_ending: header.line_ending,
        selections: header.selections,
        primary: header.primary,
    };
    assert(snapshot@ =~= described(view, decode_utf8(rest@)));
    match snapshot.validate() {
        Ok(()) => Ok((snapshot, metadata)),
        Err(e) => Err(DecodeError::Invalid(e)),
    }
}

/// Why a file cannot be read.
#[derive(Debug, Clone, Copy, PartialEq, Eq, Structural)]
pub enum ReadError {
    Header(HeaderError),
    Text(DecodeError),
}

/// What is wrong with a file of `file_length` bytes that has this header, of `length` bytes, and
/// the bytes `rest` behind it.
pub open spec fn read_fault(
    header: HeaderView,
    length: nat,
    file_length: u64,
    rest: Seq<u8>,
) -> Option<ReadError> {
    match header_fault(header, length, file_length) {
        Some(e) => Some(ReadError::Header(e)),
        None => match decode_fault(header, rest) {
            Some(e) => Some(ReadError::Text(e)),
            None => None,
        },
    }
}

/// The snapshot and the facts that a file holds. The header was parsed from `length` bytes, and
/// `rest` is all that follows it in a file of `file_length` bytes.
pub fn decode(header: Header, length: usize, file_length: u64, rest: &[u8]) -> (r: Result<
    (Snapshot, RecoveryMetadata),
    ReadError,
>)
    requires
        length <= MAX_HEADER,
    ensures
        match r {
            Ok((snapshot, metadata)) => {
                &&& read_fault(header@, length as nat, file_length, rest@) is None
                &&& snapshot@ == described(header@, decode_utf8(rest@))
                &&& metadata == metadata_of(header@)
            },
            Err(e) => read_fault(header@, length as nat, file_length, rest@) == Some(e),
        },
{
    match read_header(&header, length, file_length) {
        Ok(()) => {},
        Err(e) => {
            return Err(ReadError::Header(e));
        },
    }
    match decode_payload(header, rest) {
        Ok(found) => Ok(found),
        Err(e) => Err(ReadError::Text(e)),
    }
}

/// The snapshot that a file holds.
pub fn read(header: Header, length: usize, file_length: u64, rest: &[u8]) -> (r: Result<
    Snapshot,
    ReadError,
>)
    requires
        length <= MAX_HEADER,
    ensures
        match r {
            Ok(snapshot) => {
                &&& read_fault(header@, length as nat, file_length, rest@) is None
                &&& snapshot@ == described(header@, decode_utf8(rest@))
            },
            Err(e) => read_fault(header@, length as nat, file_length, rest@) == Some(e),
        },
{
    match decode(header, length, file_length, rest) {
        Ok((snapshot, _)) => Ok(snapshot),
        Err(e) => Err(e),
    }
}

proof fn lemma_big_endian(n: u32)
    ensures
        from_big_endian(big_endian(n)) == n,
{
    let a = n / 0x100_0000;
    let b = n / 0x1_0000 % 0x100;
    let c = n / 0x100 % 0x100;
    assert(n / 0x1_0000 == a * 0x100 + b);
    assert(n / 0x100 == a * 0x1_0000 + b * 0x100 + c);
}

proof fn lemma_from_big_endian(s: Seq<u8>)
    requires
        s.len() == 4,
    ensures
        0 <= from_big_endian(s) <= u32::MAX,
        big_endian(from_big_endian(s) as u32) == s,
{
    let n = from_big_endian(s) as u32;
    assert(n / 0x100_0000 == s[0]);
    assert(n / 0x1_0000 == s[0] * 0x100 + s[1]);
    assert(n / 0x100 == s[0] * 0x1_0000 + s[1] * 0x100 + s[2]);
    assert(big_endian(n) =~= s);
}

/// The header bytes of a file whose header has `length` bytes.
pub open spec fn header_bytes(file: Seq<u8>, length: int) -> Seq<u8> {
    file.subrange(PREAMBLE as int, PREAMBLE + length)
}

/// What stands behind a header of `length` bytes.
pub open spec fn behind_header(file: Seq<u8>, length: int) -> Seq<u8> {
    file.skip(PREAMBLE + length)
}

/// Law: a read gives back what a write wrote. Of the file that is written for a valid snapshot,
/// the header is found where it stands, it is accepted, and decoding what follows it gives the
/// snapshot and the facts of the header.
pub proof fn law_written_file_reads_back(s: SnapshotView, facts: RecoveryMetadata, json: Seq<u8>)
    requires
        snapshot_fault(s) is None,
        0 < json.len() <= MAX_HEADER,
        file_image(json, s.text).len() <= u64::MAX,
    ensures
        ({
            let file = file_image(json, s.text);
            let header = header_of(s, facts);
            let length = json.len() as int;
            &&& header_length_of(file) == Ok::<usize, HeaderError>(json.len() as usize)
            &&& header_bytes(file, length) == json
            &&& header_fault(header, json.len(), file.len() as u64) is None
            &&& decode_fault(header, behind_header(file, length)) is None
            &&& described(header, decode_utf8(behind_header(file, length))) == s
            &&& metadata_of(header) == facts
        }),
{
    let file = file_image(json, s.text);
    let header = header_of(s, facts);
    let text = encode_utf8(s.text);
    let n = json.len() as u32;
    lemma_magic_len();
    lemma_big_endian(n);
    assert(file.take(15) =~= magic());
    assert(file.subrange(15, 19) =~= big_endian(n));
    assert(header_bytes(file, json.len() as int) =~= json);
    let rest = behind_header(file, json.len() as int);
    assert(rest =~= text);
    assert(rest.take(rest.len() as int) =~= rest);
    vstd::utf8::encode_utf8_valid_utf8(s.text);
    vstd::utf8::encode_utf8_decode_utf8(s.text);
    assert(described(header, s.text) =~= s);
}

/// Law: only exact files are read. A file whose header and text are accepted holds the magic
/// string, the length of the header, the header and the text of the snapshot that comes out, and
/// nothing else: nothing is missing and nothing trails.
pub proof fn law_accepted_file_is_exact(file: Seq<u8>, header: HeaderView)
    requires
        file.len() <= u64::MAX,
        header_length_of(file) is Ok,
        PREAMBLE + header_length_of(file)->Ok_0 <= file.len(),
        header_fault(header, header_length_of(file)->Ok_0 as nat, file.len() as u64) is None,
        decode_fault(header, behind_header(file, header_length_of(file)->Ok_0 as int)) is None,
    ensures
        ({
            let length = header_length_of(file)->Ok_0 as int;
            let text = decode_utf8(behind_header(file, length));
            &&& file == file_image(header_bytes(file, length), text)
            &&& snapshot_fault(described(header, text)) is None
            &&& encode_utf8(text).len() == header.payload_len
        }),
{
    let length = header_length_of(file)->Ok_0 as int;
    let json = header_bytes(file, length);
    let rest = behind_header(file, length);
    let text = decode_utf8(rest);
    lemma_magic_len();
    let mark = file.subrange(15, 19);
    lemma_from_big_endian(mark);
    assert(payload_of(header, rest) =~= rest);
    vstd::utf8::decode_utf8_encode_utf8(rest);
    assert(file =~= file.take(15) + mark + json + rest);
}

/// A whole file is read: its header is found, `parse` makes sense of it, and it and what follows
/// are accepted.
pub open spec fn file_reads(parse: spec_fn(Seq<u8>) -> Option<HeaderView>, file: Seq<u8>) -> bool {
    &&& file.len() <= u64::MAX
    &&& header_length_of(file) matches Ok(length)
    &&& PREAMBLE + length <= file.len()
    &&& parse(header_bytes(file, length as int)) matches Some(header)
    &&& read_fault(
        header,
        length as nat,
        file.len() as u64,
        behind_header(file, length as int),
    ) is None
}

/// Law: truncated and trailing data are always refused. Of a file that is read, neither a part
/// from its start nor the file with anything behind it is read, whatever makes sense of headers.
pub proof fn law_truncated_or_extended_files_are_refused(
    parse: spec_fn(Seq<u8>) -> Option<HeaderView>,
    file: Seq<u8>,
    length: int,
)
    requires
        0 <= length < file.len(),
    ensures
        !(file_reads(parse, file) && file_reads(parse, file.take(length))),
{
    let part = file.take(length);
    if file_reads(parse, file) && file_reads(parse, part) {
        lemma_magic_len();
        assert(part.take(15) =~= file.take(15));
        assert(part.subrange(15, 19) =~= file.subrange(15, 19));
        let n = header_length_of(file)->Ok_0 as int;
        assert(header_bytes(part, n) =~= header_bytes(file, n));
    }
}

/// Law: the header of a snapshot says of it what it is, in the field of that name: the first
/// version, the native units of both paths, the size of the text in bytes, and everything else as
/// it stands, with the time and the facts that are given.
pub proof fn law_header_says_what_the_snapshot_is(s: SnapshotView, facts: RecoveryMetadata)
    requires
        encode_utf8(s.text).len() <= u64::MAX,
    ensures
        ({
            let header = header_of(s, facts);
            &&& header.version == 1
            &&& header.timestamp == facts.timestamp
            &&& header.original_size == facts.original_size
            &&& header.original_modified == facts.original_modified
            &&& header.path == s.path && header.cwd == s.cwd
            &&& header.payload_len == encode_utf8(s.text).len()
            &&& header.encoding == s.encoding && header.has_bom == s.has_bom
            &&& header.line_ending == s.line_ending
            &&& header.selections == s.selections && header.primary == s.primary
        }),
{
}

/// Law: a header and a text describe the snapshot whose fields they are, and the facts of the
/// header are the saved ones.
pub proof fn law_described_snapshot(header: HeaderView, text: Seq<char>)
    ensures
        ({
            let s = described(header, text);
            &&& s.path == header.path && s.cwd == header.cwd && s.text == text
            &&& s.encoding == header.encoding && s.has_bom == header.has_bom
            &&& s.line_ending == header.line_ending
            &&& s.selections == header.selections && s.primary == header.primary
            &&& metadata_of(header).timestamp == header.timestamp
            &&& metadata_of(header).original_size == header.original_size
            &&& metadata_of(header).original_modified == header.original_modified
        }),
{
}

/// Law: a file is the magic line, the length of the header in four bytes with the most significant
/// first, the header and the text in UTF-8, with nothing between or behind them.
pub proof fn law_layout_of_a_file(header: Seq<u8>, text: Seq<char>)
    requires
        header.len() <= 65536,
    ensures
        ({
            let file = file_image(header, text);
            let body = encode_utf8(text);
            &&& file.len() == 19 + header.len() + body.len()
            &&& file.take(15) == encode_utf8("HELIX-RECOVERY\n"@)
            &&& file[15] * 0x100_0000 + file[16] * 0x1_0000 + file[17] * 0x100 + file[18]
                == header.len()
            &&& file.subrange(19, (19 + header.len()) as int) == header
            &&& file.skip((19 + header.len()) as int) == body
        }),
{
    let file = file_image(header, text);
    let n = header.len() as u32;
    lemma_magic_len();
    lemma_big_endian(n);
    assert(file.take(15) =~= magic());
    assert(file.subrange(15, 19) =~= big_endian(n));
    assert(file[15] == big_endian(n)[0] && file[16] == big_endian(n)[1]);
    assert(file[17] == big_endian(n)[2] && file[18] == big_endian(n)[3]);
    assert(file.subrange(19, (19 + header.len()) as int) =~= header);
    assert(file.skip((19 + header.len()) as int) =~= encode_utf8(text));
}

/// Law: the length of a header is read exactly from a file that starts with the magic line and
/// four more bytes, and is at least one and at most 65536. A file that ends before is truncated,
/// and one that starts otherwise is no recovery file.
pub proof fn law_header_length(start: Seq<u8>)
    ensures
        ({
            let line = encode_utf8("HELIX-RECOVERY\n"@);
            let n = start[15] * 0x100_0000 + start[16] * 0x1_0000 + start[17] * 0x100 + start[18];
            let found = header_length_of(start);
            &&& found is Ok <==> start.len() >= 19 && start.take(15) == line && 1 <= n <= 65536
            &&& found matches Ok(length) ==> length == n
            &&& found == Err::<usize, HeaderError>(HeaderError::Truncated) <==> start.len() < 15
                || (start.len() < 19 && start.take(15) == line)
            &&& found == Err::<usize, HeaderError>(HeaderError::NotRecoveryFile) <==> start.len()
                >= 15 && start.take(15) != line
            &&& found == Err::<usize, HeaderError>(HeaderError::HeaderLength) <==> start.len() >= 19
                && start.take(15) == line && !(1 <= n <= 65536)
        }),
{
    lemma_magic_len();
    if start.len() >= 19 {
        let b = start.subrange(15, 19);
        assert(b[0] == start[15] && b[1] == start[16] && b[2] == start[17] && b[3] == start[18]);
    }
}

/// Law: a file is read exactly when its header has the first version, the file has the length
/// that preamble, header and payload add up to, and what follows the header is valid UTF-8 of
/// just the payload's length that makes a snapshot in order. What is wrong is told in this order.
pub proof fn law_readable_files(header: HeaderView, length: nat, file_length: u64, rest: Seq<u8>)
    ensures
        ({
            let expected = 19 + length + header.payload_len;
            let front = if rest.len() < header.payload_len {
                rest
            } else {
                rest.take(header.payload_len as int)
            };
            let fault = read_fault(header, length, file_length, rest);
            let whole = header.version == 1 && file_length == expected;
            let text = valid_utf8(front);
            &&& fault is None <==> whole && rest.len() == header.payload_len && valid_utf8(rest)
                && snapshot_fault(described(header, decode_utf8(rest))) is None
            &&& fault == Some(
                ReadError::Header(HeaderError::UnsupportedVersion(header.version)),
            ) <==> header.version != 1
            &&& fault == Some(ReadError::Header(HeaderError::PayloadOverflow)) <==> header.version
                == 1 && expected > u64::MAX
            &&& fault == Some(ReadError::Header(HeaderError::PayloadMismatch)) <==> header.version
                == 1 && expected <= u64::MAX && file_length != expected
            &&& fault == Some(ReadError::Text(DecodeError::InvalidText)) <==> whole && !text
            &&& fault == Some(ReadError::Text(DecodeError::TruncatedText)) <==> whole && text
                && rest.len() < header.payload_len
            &&& fault == Some(ReadError::Text(DecodeError::TrailingData)) <==> whole && text
                && rest.len() > header.payload_len
            &&& whole && text && rest.len() == header.payload_len ==> match snapshot_fault(
                described(header, decode_utf8(rest)),
            ) {
                Some(e) => fault == Some(ReadError::Text(DecodeError::Invalid(e))),
                None => fault is None,
            }
        }),
{
    if rest.len() == header.payload_len {
        assert(rest.take(rest.len() as int) =~= rest);
    }
}

} // verus!
