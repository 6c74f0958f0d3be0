//! Snapshots, files and their names.

use recovery::files::{accept_opened, check, lock_byte, open_regular, Fault, FileError, FileFacts};
use recovery::format::{
    decode, encode_file, header_fits, header_length, read, read_header, DecodeError, Header,
    HeaderError, ReadError, StoredPath, MAX_HEADER,
};
use recovery::names::{
    archive_name, archive_path, description, offers, published_name, staging_prefix,
    temporary_name, ARCHIVE_SUFFIX,
};
use recovery::snapshot::SnapshotError;
use recovery::{NativePath, RecoveryMetadata, Snapshot};
use ropey::Rope;

fn path(text: &str) -> NativePath {
    NativePath::from_text(text)
}

fn snapshot() -> Snapshot {
    Snapshot {
        path: Some(path("/work/a.txt")),
        cwd: path("/work"),
        text: Rope::from_str("\u{65e5}\u{672c}!"),
        encoding: "UTF-8".into(),
        has_bom: false,
        line_ending: "lf".into(),
        selections: vec![(0, 3)],
        primary: 0,
    }
}

fn facts() -> RecoveryMetadata {
    RecoveryMetadata {
        timestamp: 5,
        original_size: Some(6),
        original_modified: None,
    }
}

#[test]
fn snapshots_report_their_first_fault() {
    assert_eq!(snapshot().validate(), Ok(()));
    let mut bad = snapshot();
    bad.selections = vec![(0, 4)];
    assert_eq!(bad.validate(), Err(SnapshotError::SelectionOutsideText));
    bad.selections = vec![(4, 0)];
    assert_eq!(bad.validate(), Err(SnapshotError::SelectionOutsideText));
    bad.primary = 1;
    assert_eq!(bad.validate(), Err(SnapshotError::PrimarySelection));
    bad.path = Some(path("a\0b"));
    assert_eq!(bad.validate(), Err(SnapshotError::NulInPath));
    bad.cwd = path("work");
    assert_eq!(bad.validate(), Err(SnapshotError::RelativeCwd));
    let mut nul = snapshot();
    nul.cwd = path("/wo\0rk");
    assert_eq!(nul.validate(), Err(SnapshotError::NulInPath));
}

#[test]
fn sizes_are_in_bytes_and_zero_is_unlimited() {
    // Two characters of three bytes, and one of one.
    assert!(snapshot().exceeds(6));
    assert!(!snapshot().exceeds(7));
    assert!(!snapshot().exceeds(0));
}

#[test]
fn files_are_laid_out_exactly() {
    let file = encode_file(b"head", &Rope::from_str("text\u{e9}"));
    assert_eq!(file, b"HELIX-RECOVERY\n\x00\x00\x00\x04headtext\xc3\xa9");
    assert_eq!(header_length(&file), Ok(4));
    let long = vec![b'x'; 0x1_0000];
    assert!(header_fits(&long));
    let file = encode_file(&long, &Rope::new());
    assert_eq!(&file[15..19], [0, 1, 0, 0]);
    assert_eq!(header_length(&file), Ok(MAX_HEADER));
    assert!(!header_fits(&vec![b'x'; 0x1_0001]));
}

#[test]
fn header_lengths_are_bounded() {
    assert_eq!(header_length(b""), Err(HeaderError::Truncated));
    assert_eq!(header_length(b"HELIX-RECOVERY"), Err(HeaderError::Truncated));
    assert_eq!(
        header_length(b"HELIX-RECOVERY "),
        Err(HeaderError::NotRecoveryFile)
    );
    assert_eq!(
        header_length(b"HELIX-RECOVERY\n\0\0\0"),
        Err(HeaderError::Truncated)
    );
    assert_eq!(
        header_length(b"HELIX-RECOVERY\n\0\0\0\0"),
        Err(HeaderError::HeaderLength)
    );
    assert_eq!(
        header_length(b"HELIX-RECOVERY\n\0\x01\0\x01"),
        Err(HeaderError::HeaderLength)
    );
    assert_eq!(header_length(b"HELIX-RECOVERY\n\0\0\x01\x02"), Ok(258));
}

#[test]
fn headers_report_each_fault() {
    let mut header = Header::new(&snapshot(), facts());
    assert_eq!(header.payload_len, 7);
    assert_eq!(read_header(&header, 10, 36), Ok(()));
    assert_eq!(
        read_header(&header, 10, 35),
        Err(HeaderError::PayloadMismatch)
    );
    header.payload_len = u64::MAX - 28;
    assert_eq!(
        read_header(&header, 10, 35),
        Err(HeaderError::PayloadOverflow)
    );
    header.payload_len = u64::MAX - 29;
    assert_eq!(read_header(&header, 10, u64::MAX), Ok(()));
    header.version = 2;
    assert_eq!(
        read_header(&header, 10, 36),
        Err(HeaderError::UnsupportedVersion(2))
    );
}

#[test]
fn texts_report_each_fault() {
    let text = "\u{65e5}\u{672c}!".as_bytes();
    let header = || Header::new(&snapshot(), facts());
    let (found, metadata) = decode(header(), 10, 36, text).unwrap();
    assert_eq!(found.text, snapshot().text);
    assert_eq!(found.path.unwrap().units, b"/work/a.txt");
    assert_eq!(metadata, facts());
    let fault = |rest: &[u8]| match read(header(), 10, 36, rest) {
        Err(ReadError::Text(fault)) => fault,
        other => panic!("{other:?}"),
    };
    assert_eq!(fault(&[0xff; 7]), DecodeError::InvalidText);
    assert_eq!(fault(&text[..6]), DecodeError::TruncatedText);
    assert_eq!(fault(&text[..5]), DecodeError::InvalidText);
    assert_eq!(
        fault(&[text, b"x".as_slice()].concat()),
        DecodeError::TrailingData
    );
    let mut outside = header();
    outside.selections = vec![(0, 7)];
    assert!(matches!(
        read(outside, 10, 36, text),
        Err(ReadError::Text(DecodeError::Invalid(
            SnapshotError::SelectionOutsideText
        )))
    ));
    assert!(matches!(
        read(header(), 10, 37, text),
        Err(ReadError::Header(HeaderError::PayloadMismatch))
    ));
}

#[test]
fn stored_paths_keep_every_unit() {
    let odd = NativePath::new(b"/a\xff\xfe\x01/../b".to_vec());
    assert_eq!(StoredPath::encode(&odd).decode().units, odd.units);
    assert_eq!(StoredPath::encode(&odd).units(), odd.units.as_slice());
}

#[test]
fn only_private_regular_files_are_accepted() {
    let facts = FileFacts {
        regular: true,
        owner: 7,
        mode: 0o100644,
    };
    assert_eq!(accept_opened(facts, 7), Ok(()));
    assert_eq!(accept_opened(facts, 8), Err(FileError::OtherUser));
    for mode in [0o620, 0o602, 0o666] {
        assert_eq!(
            accept_opened(FileFacts { mode, ..facts }, 7),
            Err(FileError::WritableByOthers)
        );
    }
    let odd = FileFacts {
        regular: false,
        ..facts
    };
    assert_eq!(accept_opened(odd, 7), Err(FileError::NotRegular));
    assert_eq!(open_regular(false), Err(FileError::NotRegular));
    assert_eq!(open_regular(true), Ok(()));
    assert!(check(Ok(true)).is_ok());
    assert!(matches!(check(Ok(false)), Err(Fault::Replaced)));
    assert!(matches!(check(Err("gone".into())), Err(Fault::System(e)) if e == "gone"));
}

#[test]
fn the_locked_byte_lies_beyond_the_data() {
    let byte = lock_byte(100).unwrap();
    assert_eq!(
        ((byte.high as u64) << 32) | byte.low as u64,
        i64::MAX as u64 - 1
    );
    assert!(lock_byte(i64::MAX as u64 - 2).is_some());
    assert!(lock_byte(i64::MAX as u64 - 1).is_none());
}

#[test]
fn names_describe_the_original() {
    assert_eq!(description(&None), b"unnamed");
    assert_eq!(description(&Some(path("/"))), b"unnamed");
    assert_eq!(description(&Some(path("/a/b.txt"))), b"b.txt");
    assert_eq!(description(&Some(path("/a/b c/d\u{e9}-_.x"))), b"d_-_.x");
    assert_eq!(
        description(&Some(NativePath::new(b"/a/\xff".to_vec()))),
        b"unnamed"
    );
    let long = "\u{65e5}".repeat(50);
    assert_eq!(description(&Some(path(&long))), "_".repeat(40).as_bytes());
    assert_eq!(
        staging_prefix(&Some(path("/a/b.txt"))),
        b".helix-pending-b.txt-"
    );
}

#[test]
fn only_active_names_are_offered() {
    let staged = b".helix-pending-a-0123.swp";
    assert!(temporary_name(staged));
    let published = published_name(staged).units;
    assert_eq!(published, b".helix-recovery-a-0123.swp");
    assert!(offers(&published, ".swp"));
    assert!(!offers(&published, ".other"));
    assert!(!offers(staged, ".swp"));
    let archived = archive_name(b".helix-pending-0123.recovered").units;
    assert_eq!(archived, b".helix-recovered-0123.recovered");
    assert!(!offers(&archived, ARCHIVE_SUFFIX));
    assert!(archive_path(&path("/x").join(&NativePath::new(archived))));
    assert!(!archive_path(&path("/x").join(&NativePath::new(published))));
    assert!(!offers(b".helix-recovery-\xff.swp", ".swp"));
}
