//! Writes, claims, discovery and closes on a small file system in memory.

use std::cell::RefCell;
use std::collections::BTreeMap;
use std::rc::Rc;
use std::time::Instant;

use recovery::claim::{claim, ClaimError, Opened, Recovery};
use recovery::discovery::{discover, Discovery, Entry, Listing};
use recovery::files::{accept_opened, check, open_regular, FileFacts, OwnedFile};
use recovery::format::{
    encode_file, header_length, read, read_header, Header, StoredPath, MAX_HEADER, PREAMBLE,
};
use recovery::names::{
    ARCHIVE_PREFIX, ARCHIVE_SUFFIX, DIRECTORY_MODE, FILE_MODE, PREFIX, TEMP_PREFIX,
};
use recovery::resolve::{Query, Resolution, Resolved};
use recovery::state::{Notice, Outcome, State, Step};
use recovery::swap::Swap;
use recovery::work::{Action, Copied, Event, Progress};
use recovery::{Config, NativePath, RecoveryMetadata, Snapshot};
use ropey::Rope;
use serde_json::Value;

const USER: u32 = 1000;

enum Kind {
    Directory,
    File,
    Link(Vec<u8>),
}

struct Node {
    kind: Kind,
    bytes: Vec<u8>,
    mode: u32,
    owner: u32,
    locked_by: Option<u64>,
}

#[derive(Default)]
struct Disk {
    nodes: Vec<Node>,
    names: BTreeMap<Vec<u8>, usize>,
    /// The file that each lock is held on.
    locks: BTreeMap<u64, usize>,
    counter: u64,
    temporary: Option<(Vec<u8>, usize)>,
    /// Directories in which nothing can be created or removed.
    frozen: Vec<Vec<u8>>,
    /// Directories that cannot be opened, neither to list nor to sync them.
    unreadable: Vec<Vec<u8>>,
    log: Vec<String>,
}

fn text(bytes: &[u8]) -> String {
    String::from_utf8_lossy(bytes).into_owned()
}

fn parent(path: &[u8]) -> Vec<u8> {
    NativePath::new(path.to_vec()).parent().unwrap().units
}

fn join(base: &[u8], name: &[u8]) -> Vec<u8> {
    NativePath::new(base.to_vec())
        .join(&NativePath::new(name.to_vec()))
        .units
}

impl Disk {
    fn add(&mut self, path: &[u8], kind: Kind, bytes: &[u8]) -> usize {
        self.nodes.push(Node {
            kind,
            bytes: bytes.to_vec(),
            mode: 0o644,
            owner: USER,
            locked_by: None,
        });
        self.names.insert(path.to_vec(), self.nodes.len() - 1);
        self.nodes.len() - 1
    }

    fn node(&self, path: &[u8]) -> Option<usize> {
        let real = self.canonicalize(&parent(path))?;
        let name = NativePath::new(path.to_vec()).file_name()?;
        self.names.get(&join(&real, &name)).copied()
    }

    fn key(&self, path: &[u8]) -> Result<Vec<u8>, String> {
        let real = self
            .canonicalize(&parent(path))
            .ok_or_else(|| "no such directory".to_string())?;
        match self.names.get(&real).map(|node| &self.nodes[*node].kind) {
            Some(Kind::Directory) => {}
            _ => return Err("not a directory".to_string()),
        }
        let name = NativePath::new(path.to_vec()).file_name().unwrap();
        Ok(join(&real, &name))
    }

    fn canonicalize(&self, path: &[u8]) -> Option<Vec<u8>> {
        self.walk(path, 0)
    }

    fn walk(&self, path: &[u8], depth: usize) -> Option<Vec<u8>> {
        if depth > 50 {
            return None;
        }
        let mut current = b"/".to_vec();
        let names: Vec<&[u8]> = path.split(|b| *b == b'/').filter(|n| !n.is_empty()).collect();
        for (i, name) in names.iter().enumerate() {
            let next = join(&current, name);
            match &self.nodes[*self.names.get(&next)?].kind {
                Kind::Link(target) => {
                    let mut whole = join(&current, target);
                    for rest in &names[i + 1..] {
                        whole = join(&whole, rest);
                    }
                    return self.walk(&whole, depth + 1);
                }
                Kind::File if path.ends_with(b"/") => return None,
                _ => current = next,
            }
        }
        Some(current)
    }

    fn read_link(&self, path: &[u8]) -> Option<Vec<u8>> {
        if path.ends_with(b"/") {
            return None;
        }
        match &self.nodes[self.node(path)?].kind {
            Kind::Link(target) => Some(target.clone()),
            _ => None,
        }
    }

    fn open(&self, path: &[u8]) -> Result<usize, String> {
        let node = self.node(path).ok_or_else(|| "no such file".to_string())?;
        let found = &self.nodes[node];
        let regular = matches!(found.kind, Kind::File);
        open_regular(regular).map_err(|e| format!("{e:?}"))?;
        let facts = FileFacts {
            regular,
            owner: found.owner,
            mode: found.mode,
        };
        accept_opened(facts, USER).map_err(|e| format!("{e:?}"))?;
        Ok(node)
    }

    fn lock(&mut self, node: usize) -> Result<u64, String> {
        if self.nodes[node].locked_by.is_some() {
            return Err("locked".to_string());
        }
        self.counter += 1;
        self.nodes[node].locked_by = Some(self.counter);
        self.locks.insert(self.counter, node);
        Ok(self.counter)
    }

    fn unlock(&mut self, lock: u64) {
        if let Some(node) = self.locks.remove(&lock) {
            self.nodes[node].locked_by = None;
        }
    }

    fn create(
        &mut self,
        directory: &[u8],
        prefix: &[u8],
        suffix: &[u8],
        bytes: &[u8],
    ) -> Result<Vec<u8>, String> {
        self.counter += 1;
        let mut name = prefix.to_vec();
        name.extend_from_slice(format!("{:016}", self.counter).as_bytes());
        name.extend_from_slice(suffix);
        let path = self.key(&join(directory, &name))?;
        if self.frozen.contains(&parent(&path)) {
            return Err("permission denied".to_string());
        }
        let node = self.add(&path, Kind::File, bytes);
        self.nodes[node].mode = FILE_MODE;
        self.temporary = Some((path, node));
        Ok(name)
    }

    fn persist(&mut self, destination: &[u8], replace: bool) -> Result<(), String> {
        let (path, node) = self.temporary.take().unwrap();
        let destination = self.key(destination)?;
        if self.names.get(&path) != Some(&node) {
            return Err("temporary file is gone".to_string());
        }
        if !replace && self.names.contains_key(&destination) {
            self.names.remove(&path);
            return Err("file exists".to_string());
        }
        self.names.remove(&path);
        self.names.insert(destination, node);
        Ok(())
    }

    fn drop_temporary(&mut self) {
        if let Some((path, node)) = self.temporary.take() {
            if self.names.get(&path) == Some(&node) {
                self.names.remove(&path);
            }
        }
    }

    fn unlink(&mut self, path: &[u8]) -> Result<(), String> {
        let path = self.key(path)?;
        if self.frozen.contains(&parent(&path)) {
            return Err("permission denied".to_string());
        }
        self.names
            .remove(&path)
            .map(|_| ())
            .ok_or_else(|| "no such file".to_string())
    }

    fn sync(&mut self, directory: &[u8]) -> Result<(), String> {
        let real = self
            .canonicalize(directory)
            .ok_or_else(|| "no such directory".to_string())?;
        if self.unreadable.contains(&real) {
            return Err("permission denied".to_string());
        }
        Ok(())
    }

    fn perform(&mut self, action: Action) -> Event {
        match action {
            Action::Check { path, lock } => {
                self.log.push(format!("check {}", text(&path.units)));
                let held = self.locks.get(&lock).copied();
                Event::Checked(self.open(&path.units).map(|node| Some(node) == held))
            }
            Action::CopyOriginal {
                directory,
                lock,
                prefix,
                suffix,
            } => {
                self.drop_temporary();
                let bytes = self.nodes[self.locks[&lock]].bytes.clone();
                let length = bytes.len() as u64;
                Event::Copied(
                    self.create(&directory.units, &prefix, &suffix, &bytes)
                        .map(|name| Copied {
                            name,
                            length,
                            copied: length,
                        }),
                )
            }
            Action::Stage {
                directory,
                create,
                prefix,
                suffix,
                contents,
            } => {
                self.drop_temporary();
                if let Some(list) = create {
                    for missing in list.iter().rev().chain([&directory]) {
                        if !self.names.contains_key(&missing.units) {
                            let made = self.add(&missing.units, Kind::Directory, b"");
                            self.nodes[made].mode = DIRECTORY_MODE;
                        }
                    }
                }
                Event::Staged(self.create(&directory.units, &prefix, &suffix, &contents))
            }
            Action::SyncTemporary => {
                self.log.push("flush".to_string());
                Event::Done(Ok(()))
            }
            Action::LockTemporary => {
                let node = self.temporary.as_ref().unwrap().1;
                Event::Locked(self.lock(node))
            }
            Action::IdentifyTemporary { lock } => {
                let path = self.temporary.as_ref().unwrap().0.clone();
                let held = self.locks.get(&lock).copied();
                Event::Checked(self.open(&path).map(|node| Some(node) == held))
            }
            Action::Persist {
                destination,
                replace,
            } => {
                self.log.push(format!("persist {replace}"));
                Event::Done(self.persist(&destination.units, replace))
            }
            Action::SyncDirectory(path) => {
                self.log.push(format!("sync {}", text(&path.units)));
                Event::Done(self.sync(&path.units))
            }
            Action::Inspect(path) => Event::Inspected(Ok(self.node(&path.units).is_some())),
            Action::Unlink(path) => {
                self.log.push(format!("unlink {}", text(&path.units)));
                Event::Done(self.unlink(&path.units))
            }
        }
    }

    fn write_file(&mut self, path: &[u8], bytes: &[u8]) {
        let path = self.key(path).unwrap();
        self.add(&path, Kind::File, bytes);
    }

    fn rename(&mut self, from: &[u8], to: &[u8]) {
        let node = self.names.remove(&self.key(from).unwrap()).unwrap();
        let to = self.key(to).unwrap();
        self.names.insert(to, node);
    }
}

const FIELDS: [&str; 12] = [
    "version",
    "timestamp",
    "original_size",
    "original_modified",
    "path",
    "cwd",
    "payload_len",
    "encoding",
    "has_bom",
    "line_ending",
    "selections",
    "primary",
];

fn saved_path(path: &StoredPath) -> Value {
    let mut saved = serde_json::Map::new();
    saved.insert("platform".into(), "unix".into());
    saved.insert("units".into(), path.units().to_vec().into());
    Value::Object(saved)
}

fn saved_header(header: &Header) -> Value {
    let mut saved = serde_json::Map::new();
    let selections: Vec<Value> = header
        .selections
        .iter()
        .map(|(anchor, head)| vec![*anchor, *head].into())
        .collect();
    let values: [Value; 12] = [
        header.version.into(),
        header.timestamp.into(),
        header.original_size.into(),
        header.original_modified.into(),
        header.path.as_ref().map_or(Value::Null, saved_path),
        saved_path(&header.cwd),
        header.payload_len.into(),
        header.encoding.clone().into(),
        header.has_bom.into(),
        header.line_ending.clone().into(),
        selections.into(),
        header.primary.into(),
    ];
    for (field, value) in FIELDS.into_iter().zip(values) {
        saved.insert(field.into(), value);
    }
    Value::Object(saved)
}

fn encode_header(header: &Header) -> Vec<u8> {
    serde_json::to_vec(&saved_header(header)).unwrap()
}

fn loaded_path(value: &Value) -> Option<StoredPath> {
    let saved = value.as_object()?;
    if saved.len() != 2 || saved.get("platform")?.as_str()? != "unix" {
        return None;
    }
    let units = saved.get("units")?.as_array()?.iter();
    let units: Option<Vec<u8>> = units.map(|unit| u8::try_from(unit.as_u64()?).ok()).collect();
    units.map(StoredPath::Unix)
}

fn loaded_option(value: Option<&Value>) -> Option<Option<u64>> {
    match value {
        None | Some(Value::Null) => Some(None),
        Some(value) => value.as_u64().map(Some),
    }
}

fn decode_header(bytes: &[u8]) -> Option<Header> {
    let value: Value = serde_json::from_slice(bytes).ok()?;
    let saved = value.as_object()?;
    if saved.keys().any(|field| !FIELDS.contains(&field.as_str())) {
        return None;
    }
    let mut selections = Vec::new();
    for pair in saved.get("selections")?.as_array()? {
        match pair.as_array()?.as_slice() {
            [anchor, head] => selections.push((anchor.as_u64()? as usize, head.as_u64()? as usize)),
            _ => return None,
        }
    }
    Some(Header {
        version: u32::try_from(saved.get("version")?.as_u64()?).ok()?,
        timestamp: saved.get("timestamp")?.as_u64()?,
        original_size: loaded_option(saved.get("original_size"))?,
        original_modified: loaded_option(saved.get("original_modified"))?,
        path: match saved.get("path") {
            None | Some(Value::Null) => None,
            Some(path) => Some(loaded_path(path)?),
        },
        cwd: loaded_path(saved.get("cwd")?)?,
        payload_len: saved.get("payload_len")?.as_u64()?,
        encoding: saved.get("encoding")?.as_str()?.to_string(),
        has_bom: saved.get("has_bom")?.as_bool()?,
        line_ending: saved.get("line_ending")?.as_str()?.to_string(),
        selections,
        primary: saved.get("primary")?.as_u64()? as usize,
    })
}

/// The header of a file, its length and what follows it.
fn split_file(bytes: &[u8]) -> Result<(Header, usize, Vec<u8>), String> {
    let start = &bytes[..bytes.len().min(PREAMBLE)];
    let length = header_length(start).map_err(|e| format!("{e:?}"))?;
    let header = bytes
        .get(PREAMBLE..PREAMBLE + length)
        .ok_or_else(|| "truncated header".to_string())?;
    let header = decode_header(header).ok_or_else(|| "malformed header".to_string())?;
    Ok((header, length, bytes[PREAMBLE + length..].to_vec()))
}

#[derive(Clone)]
struct Host(Rc<RefCell<Disk>>);

/// A swap with the locks that it may hold.
struct Owner {
    host: Host,
    swap: Swap,
    locks: Vec<u64>,
}

impl Drop for Owner {
    fn drop(&mut self) {
        for lock in &self.locks {
            self.host.0.borrow_mut().unlock(*lock);
        }
    }
}

/// A claim with its lock, until it is adopted.
struct Claim {
    host: Host,
    recovery: Option<Recovery>,
    lock: u64,
}

impl Claim {
    fn recovery(&self) -> &Recovery {
        self.recovery.as_ref().unwrap()
    }

    fn check(&self) -> Result<(), String> {
        let disk = self.host.0.borrow();
        let held = disk.locks.get(&self.lock).copied();
        let seen = disk
            .open(&self.recovery().path().units)
            .map(|node| Some(node) == held);
        self.recovery().check(seen).map_err(|e| format!("{e:?}"))
    }
}

impl Drop for Claim {
    fn drop(&mut self) {
        if self.recovery.is_some() {
            self.host.0.borrow_mut().unlock(self.lock);
        }
    }
}

impl Host {
    fn new() -> Host {
        let mut disk = Disk::default();
        for directory in ["/", "/root", "/other", "/state"] {
            disk.add(directory.as_bytes(), Kind::Directory, b"");
        }
        Host(Rc::new(RefCell::new(disk)))
    }

    fn owner(&self) -> Owner {
        Owner {
            host: self.clone(),
            swap: Swap::default(),
            locks: Vec::new(),
        }
    }

    fn file(&self, path: &NativePath) -> Vec<u8> {
        let disk = self.0.borrow();
        disk.nodes[disk.node(&path.units).unwrap()].bytes.clone()
    }

    fn has_file(&self, path: &NativePath) -> bool {
        self.0.borrow().node(&path.units).is_some()
    }

    fn count(&self, directory: &str) -> usize {
        self.0
            .borrow()
            .names
            .keys()
            .filter(|name| name.len() > 1 && parent(name) == directory.as_bytes())
            .count()
    }

    fn resolve(&self, path: &NativePath, cwd: &NativePath) -> Result<NativePath, String> {
        let mut resolution = Resolution::original_path(path, cwd);
        loop {
            let answer = match resolution.query() {
                Query::Canonicalize(path) => self.0.borrow().canonicalize(&path.units),
                Query::ReadLink(path) => self.0.borrow().read_link(&path.units),
                Query::Normalize(path) => Some(path.units),
            };
            match resolution.answer(answer.map(NativePath::new)) {
                Resolved::Ask(next) => resolution = next,
                Resolved::Found(path) => return Ok(path),
                other => return Err(format!("{other:?}")),
            }
        }
    }

    fn facts(&self, snapshot: &Snapshot) -> RecoveryMetadata {
        let disk = self.0.borrow();
        RecoveryMetadata {
            timestamp: 77,
            original_size: snapshot
                .original_file()
                .and_then(|path| disk.node(&path.units))
                .map(|node| disk.nodes[node].bytes.len() as u64),
            original_modified: None,
        }
    }

    fn header(&self, snapshot: &Snapshot) -> Header {
        Header::new(snapshot, self.facts(snapshot))
    }

    fn read(&self, path: &NativePath) -> Result<Snapshot, String> {
        let node = self.0.borrow().open(&path.units)?;
        let bytes = self.0.borrow().nodes[node].bytes.clone();
        let (header, length, rest) = split_file(&bytes)?;
        read(header, length, bytes.len() as u64, &rest).map_err(|e| format!("{e:?}"))
    }

    fn claim(&self, path: &NativePath, config: &Config) -> Result<Claim, String> {
        let node = self.0.borrow().open(&path.units)?;
        let lock = self.0.borrow_mut().lock(node)?;
        let claimed = self.claim_locked(path, config, node, lock);
        if claimed.is_err() {
            self.0.borrow_mut().unlock(lock);
        }
        claimed.map(|recovery| Claim {
            host: self.clone(),
            recovery: Some(recovery),
            lock,
        })
    }

    fn claim_locked(
        &self,
        path: &NativePath,
        config: &Config,
        node: usize,
        lock: u64,
    ) -> Result<Recovery, String> {
        let bytes = self.0.borrow().nodes[node].bytes.clone();
        let (header, length, rest) = split_file(&bytes)?;
        let seen = self.0.borrow().open(&path.units).map(|found| found == node);
        let opened = Opened {
            path: path.clone(),
            lock,
            header,
            length,
            file_length: bytes.len() as u64,
            rest,
            seen,
        };
        claim(opened, config, &expand(config)).map_err(|e| format!("{e:?}"))
    }

    fn discover(
        &self,
        config: &Config,
        path: Option<&NativePath>,
        cwd: &NativePath,
    ) -> Result<Discovery, String> {
        let path = match path {
            Some(path) => Some(self.resolve(path, cwd)?),
            None => None,
        };
        let search =
            discover(config, &expand(config), path, cwd).map_err(|e| format!("{e:?}"))?;
        let disk = self.0.borrow();
        let mut listings = Vec::new();
        for directory in &search.directories {
            let Some(real) = disk.canonicalize(&directory.units) else {
                listings.push(Listing::Missing);
                continue;
            };
            if disk.unreadable.contains(&real) {
                listings.push(Listing::Failed("permission denied".to_string()));
                continue;
            }
            let mut entries = Vec::new();
            for name in disk.names.keys() {
                if name.len() < 2 || parent(name) != real {
                    continue;
                }
                let leaf = NativePath::new(name.clone()).file_name().unwrap();
                if search.offers(&leaf) {
                    let header = disk.open(name).and_then(|node| {
                        let bytes = &disk.nodes[node].bytes;
                        let (header, length, _) = split_file(bytes)?;
                        read_header(&header, length, bytes.len() as u64)
                            .map_err(|e| format!("{e:?}"))?;
                        Ok(header)
                    });
                    entries.push(Entry::File { name: leaf, header });
                }
            }
            listings.push(Listing::Entries(entries));
        }
        Ok(search.conclude(listings))
    }
}

fn expand(config: &Config) -> Vec<NativePath> {
    config
        .directories
        .iter()
        .map(|directory| match directory.units.strip_prefix(b"~") {
            Some(rest) => NativePath::new([b"/home".as_slice(), rest].concat()),
            None => directory.clone(),
        })
        .collect()
}

impl Owner {
    fn path(&self) -> Option<Vec<u8>> {
        self.swap.path().map(|path| path.units)
    }

    fn drive(&mut self, progress: Progress) -> Result<Progress, String> {
        let mut progress = progress;
        loop {
            match progress {
                Progress::Continue(work) => {
                    let event = self.host.0.borrow_mut().perform(self.swap.action(&work));
                    if let Event::Locked(Ok(lock)) = &event {
                        self.locks.push(*lock);
                    }
                    assert!(self.swap.admits(&work, &event));
                    progress = self.swap.advance(work, event);
                    self.release();
                }
                Progress::Failed(failure) => {
                    self.host.0.borrow_mut().drop_temporary();
                    self.release();
                    return Err(format!("{failure:?}"));
                }
                ended => return Ok(ended),
            }
        }
    }

    /// Releases the locks that are not needed any more, but for that of a temporary file.
    fn release(&mut self) {
        let mut disk = self.host.0.borrow_mut();
        let kept = disk.temporary.as_ref().map(|(_, node)| *node);
        let swap = &self.swap;
        self.locks.retain(|lock| {
            let held = swap.holds(*lock) || disk.locks.get(lock).copied() == kept;
            if !held {
                disk.unlock(*lock);
            }
            held
        });
    }

    fn write(
        &mut self,
        snapshot: &Snapshot,
        config: &Config,
        generation: u64,
    ) -> Result<Option<NativePath>, String> {
        if !self
            .swap
            .write(snapshot, config, generation)
            .map_err(|e| format!("{e:?}"))?
        {
            return Ok(None);
        }
        let path = match &snapshot.path {
            Some(path) => Some(self.host.resolve(path, &snapshot.cwd)?),
            None => None,
        };
        let resolved = snapshot.at_path(path);
        let header = encode_header(&self.host.header(&resolved));
        let progress = self
            .swap
            .begin(
                resolved,
                header,
                config,
                &expand(config),
                NativePath::from_text("/state/recovery"),
            )
            .map_err(|e| format!("{e:?}"))?;
        match self.drive(progress)? {
            Progress::Written(path) => Ok(Some(path)),
            other => panic!("{other:?}"),
        }
    }

    fn close(&mut self, retain: bool) -> Result<Vec<NativePath>, String> {
        let progress = self.swap.close(retain);
        match self.drive(progress)? {
            Progress::Closed(paths) => Ok(paths),
            other => panic!("{other:?}"),
        }
    }

    fn adopt(&mut self, mut claim: Claim) {
        self.locks.push(claim.lock);
        self.swap.adopt(claim.recovery.take().unwrap());
    }

    fn archive(&self) -> NativePath {
        self.swap.recovered[0].archive.as_ref().unwrap().path.clone()
    }
}

fn path(text: &str) -> NativePath {
    NativePath::from_text(text)
}

fn config(root: &str) -> Config {
    Config {
        enable: true,
        directories: vec![path(root)],
        ..Config::default_in(&path("/state"))
    }
}

fn snapshot(root: &str) -> Snapshot {
    Snapshot {
        path: Some(path(root).join(&path("example.txt"))),
        cwd: path(root),
        text: Rope::from_str("hello \u{1f30d}\r\n\u{65e5}\u{672c}\u{8a9e}\n"),
        encoding: "utf-16le".into(),
        has_bom: true,
        line_ending: "crlf".into(),
        selections: vec![(0, 5), (10, 9)],
        primary: 1,
    }
}

fn units(path: &Option<NativePath>) -> Option<Vec<u8>> {
    path.as_ref().map(|path| path.units.clone())
}

fn all_units(paths: &[NativePath]) -> Vec<Vec<u8>> {
    paths.iter().map(|path| path.units.clone()).collect()
}

fn assert_snapshot(host: &Host, actual: &Snapshot, expected: &Snapshot) {
    assert_eq!(
        units(&actual.path),
        expected
            .path
            .as_ref()
            .map(|path| host.resolve(path, &expected.cwd).unwrap().units)
    );
    assert_eq!(actual.cwd.units, expected.cwd.units);
    assert_eq!(actual.text, expected.text);
    assert_eq!(actual.encoding, expected.encoding);
    assert_eq!(actual.has_bom, expected.has_bom);
    assert_eq!(actual.line_ending, expected.line_ending);
    assert_eq!(actual.selections, expected.selections);
    assert_eq!(actual.primary, expected.primary);
}

fn once(host: &Host, state: &Snapshot, conf: &Config) -> NativePath {
    host.owner().write(state, conf, 1).unwrap().unwrap()
}

fn raw_file(host: &Host, path: &NativePath, header: &Value, payload: &[u8]) {
    let header = serde_json::to_vec(header).unwrap();
    let mut bytes = b"HELIX-RECOVERY\n".to_vec();
    bytes.extend_from_slice(&(header.len() as u32).to_be_bytes());
    bytes.extend_from_slice(&header);
    bytes.extend_from_slice(payload);
    let mut disk = host.0.borrow_mut();
    match disk.node(&path.units) {
        Some(node) => disk.nodes[node].bytes = bytes,
        None => disk.write_file(&path.units, &bytes),
    }
}

#[test]
fn claim_adopts_selected_file_without_writes() {
    for named in [false, true] {
        let host = Host::new();
        let mut state = snapshot("/root");
        if !named {
            state.path = None;
        }
        let mut conf = config("/root");
        let selected = once(&host, &state, &conf);
        let unselected = once(&host, &state, &conf);
        let bytes = host.file(&selected);
        let unselected_bytes = host.file(&unselected);
        conf.directories = vec![path("."), path("/root/unavailable")];
        conf.suffix = ".new-suffix".into();
        let recovered = host.claim(&selected, &conf).unwrap();
        assert_eq!(recovered.recovery().path().units, selected.units);
        assert_snapshot(&host, &recovered.recovery().snapshot, &state);
        recovered.check().unwrap();
        assert!(host.claim(&selected, &conf).is_err());
        assert_eq!(host.count("/root"), 2);
        drop(recovered);
        assert_eq!(host.file(&selected), bytes);

        let recovered = host.claim(&selected, &conf).unwrap();
        let mut state = recovered.recovery().snapshot.clone();
        let mut swap = host.owner();
        swap.adopt(recovered);
        assert_eq!(swap.path(), Some(selected.units.clone()));
        assert!(host.claim(&selected, &conf).is_err());
        assert_eq!(host.count("/root"), 2);
        drop(swap);
        assert_eq!(host.file(&selected), bytes);

        let mut swap = host.owner();
        swap.adopt(host.claim(&selected, &conf).unwrap());
        state.text.append(Rope::from_str("recovered edit"));
        assert_eq!(
            units(&swap.write(&state, &conf, 2).unwrap()),
            Some(selected.units.clone())
        );
        assert!(host.claim(&selected, &conf).is_err());
        let archive = swap.archive();
        drop(swap);
        assert_snapshot(&host, &host.read(&selected).unwrap(), &state);
        assert_eq!(host.file(&archive), bytes);
        assert!(host.claim(&archive, &conf).is_ok());

        let mut swap = host.owner();
        swap.adopt(host.claim(&selected, &conf).unwrap());
        swap.close(false).unwrap();
        assert!(!host.has_file(&selected));
        assert_eq!(host.file(&archive), bytes);
        assert_eq!(host.file(&unselected), unselected_bytes);
    }
}

#[test]
fn adoption_retains_prior_files_until_preservation_or_close() {
    for preserve in [false, true] {
        let host = Host::new();
        let state = snapshot("/root");
        let conf = config("/root");
        let selected = once(&host, &state, &conf);
        let mut target = host.owner();
        let prior = target.write(&state, &conf, 10).unwrap().unwrap();
        let recovered = host.claim(&selected, &conf).unwrap();
        let state = recovered.recovery().snapshot.clone();
        target.adopt(recovered);
        assert_eq!(target.swap.last_generation, Some(10));
        assert_eq!(target.path(), Some(selected.units.clone()));
        assert_eq!(target.swap.files.len(), 2);
        assert!(host.has_file(&prior));
        assert!(host.claim(&prior, &conf).is_err());
        assert!(host.claim(&selected, &conf).is_err());
        if preserve {
            assert_eq!(
                units(&target.write(&state, &conf, 11).unwrap()),
                Some(selected.units.clone())
            );
            assert!(!host.has_file(&prior));
            assert_eq!(target.swap.files.len(), 1);
        }
        target.close(false).unwrap();
        assert!(!host.has_file(&prior));
        assert!(!host.has_file(&selected));
    }
}

#[test]
fn recovered_original_is_immutable_across_active_writes() {
    for retain in [false, true] {
        let host = Host::new();
        let mut state = snapshot("/root");
        let conf = config("/root");
        let selected = once(&host, &state, &conf);
        // A historical timestamp makes decoding and writing again insufficient for a copy.
        let mut header = host.header(&host.read(&selected).unwrap());
        header.timestamp = 1234;
        raw_file(&host, &selected, &saved_header(&header), state.text.to_string().as_bytes());
        let bytes = host.file(&selected);
        let identity = host.0.borrow().open(&selected.units).unwrap();
        let mut swap = host.owner();
        swap.adopt(host.claim(&selected, &conf).unwrap());
        let encoding = state.encoding.clone();
        state.encoding = "x".repeat(MAX_HEADER);
        assert!(swap.write(&state, &conf, 2).is_err());
        assert_eq!(host.file(&selected), bytes);
        assert!(swap.swap.recovered[0].archive.is_none());
        state.encoding = encoding;
        let mut archives: Vec<Vec<u8>> = Vec::new();
        for generation in 2..5 {
            state.text.append(Rope::from_str("new edit"));
            assert_eq!(
                units(&swap.write(&state, &conf, generation).unwrap()),
                Some(selected.units.clone())
            );
            assert_snapshot(&host, &host.read(&selected).unwrap(), &state);
            assert_eq!(swap.swap.recovered.len(), 1);
            assert!(swap.swap.recovered[0].original.is_none());
            let archive = swap.archive();
            assert_eq!(host.file(&archive), bytes);
            assert_ne!(host.0.borrow().open(&archive.units).unwrap(), identity);
            assert!(host.claim(&archive, &conf).is_err());
            let node = host.0.borrow().node(&archive.units).unwrap();
            assert_eq!(host.0.borrow().nodes[node].mode, 0o600);
            if archives.is_empty() {
                archives.push(archive.units.clone());
            }
            assert_eq!(archives, vec![archive.units.clone()]);
            assert_eq!(host.count("/root"), 2);
        }
        let retained = swap.close(retain).unwrap();
        assert!(!host.has_file(&selected));
        if retain {
            assert_eq!(all_units(&retained), archives);
            assert_eq!(host.file(&retained[0]), bytes);
            assert!(host.claim(&retained[0], &conf).is_ok());
            assert_eq!(all_units(&swap.close(false).unwrap()), all_units(&retained));
        } else {
            assert!(retained.is_empty());
            assert!(!host.has_file(&NativePath::new(archives[0].clone())));
            assert_eq!(host.count("/root"), 0);
        }
    }
}

#[test]
fn retained_close_preserves_all_adoptions_and_leaves_unselected_untouched() {
    for preserve in [false, true] {
        let host = Host::new();
        let mut state = snapshot("/root");
        let conf = config("/root");
        let first = once(&host, &state, &conf);
        let first_bytes = host.file(&first);
        state.text.append(Rope::from_str("second original"));
        let second = once(&host, &state, &conf);
        let second_bytes = host.file(&second);
        let unselected = once(&host, &state, &conf);
        let mut swap = host.owner();
        let prior = swap.write(&state, &conf, 1).unwrap().unwrap();
        swap.adopt(host.claim(&first, &conf).unwrap());
        swap.adopt(host.claim(&second, &conf).unwrap());
        assert_eq!(host.count("/root"), 4);
        if preserve {
            state.text.append(Rope::from_str("active update"));
            assert_eq!(
                units(&swap.write(&state, &conf, 2).unwrap()),
                Some(second.units.clone())
            );
            assert!(!host.has_file(&first));
        }
        let archives = swap.close(true).unwrap();
        assert_eq!(archives.len(), 2);
        let archived_bytes: Vec<_> = archives.iter().map(|path| host.file(path)).collect();
        assert!(archived_bytes.contains(&first_bytes));
        assert!(archived_bytes.contains(&second_bytes));
        assert!(!host.has_file(&first) && !host.has_file(&second) && !host.has_file(&prior));
        assert_eq!(host.file(&unselected), second_bytes);
        for archive in &archives {
            assert!(host.claim(archive, &conf).is_ok());
        }
        assert_eq!(all_units(&swap.close(false).unwrap()), all_units(&archives));
        assert!(swap.write(&state, &conf, 3).unwrap().is_none());
    }
}

#[test]
fn archives_are_explicit_only_and_recovery_publishes_a_new_active_name() {
    let host = Host::new();
    let mut state = snapshot("/root");
    let conf = config("/root");
    let selected = once(&host, &state, &conf);
    let bytes = host.file(&selected);
    let mut swap = host.owner();
    swap.adopt(host.claim(&selected, &conf).unwrap());
    let archive = swap.close(true).unwrap().pop().unwrap();
    let name = archive.file_name().unwrap();
    assert!(name.starts_with(ARCHIVE_PREFIX.as_bytes()));
    assert!(name.ends_with(ARCHIVE_SUFFIX.as_bytes()));
    for suffix in [".swp", ARCHIVE_SUFFIX] {
        let conf = Config {
            suffix: suffix.into(),
            ..conf.clone()
        };
        assert!(host
            .discover(&conf, state.path.as_ref(), &state.cwd)
            .unwrap()
            .candidates
            .is_empty());
    }
    let recovered = host.claim(&archive, &conf).unwrap();
    assert_snapshot(&host, &recovered.recovery().snapshot, &state);
    let mut swap = host.owner();
    swap.adopt(recovered);
    assert_eq!(host.count("/root"), 1);
    state.text.append(Rope::from_str("archive recovery edit"));
    let active = swap.write(&state, &conf, 2).unwrap().unwrap();
    assert_ne!(active.units, archive.units);
    assert!(active.file_name().unwrap().starts_with(PREFIX.as_bytes()));
    assert!(!host.has_file(&archive));
    assert_eq!(
        all_units(
            &host
                .discover(&conf, state.path.as_ref(), &state.cwd)
                .unwrap()
                .candidates
        ),
        vec![active.units.clone()]
    );
    assert_snapshot(&host, &host.read(&active).unwrap(), &state);
    let new_archive = swap.close(true).unwrap().pop().unwrap();
    assert_ne!(new_archive.units, archive.units);
    assert_eq!(
        units(&new_archive.parent()),
        units(&archive.parent())
    );
    assert_eq!(host.file(&new_archive), bytes);
    assert!(host.claim(&new_archive, &conf).is_ok());
    assert!(!host.has_file(&active));
}

#[test]
fn archive_copy_failure_fences_close_and_keeps_originals_for_retry() {
    let host = Host::new();
    let state = snapshot("/root");
    let conf = config("/root");
    let selected = once(&host, &state, &conf);
    let bytes = host.file(&selected);
    let mut swap = host.owner();
    let prior = swap.write(&state, &conf, 1).unwrap().unwrap();
    let prior_bytes = host.file(&prior);
    host.0.borrow_mut().frozen.push(b"/root".to_vec());
    swap.adopt(host.claim(&selected, &conf).unwrap());
    let write = swap.write(&state, &conf, 2);
    let close = swap.close(true);
    host.0.borrow_mut().frozen.clear();
    assert!(write.is_err() && close.is_err());
    assert!(swap.swap.recovered[0].archive.is_none());
    assert_eq!(host.count("/root"), 2);
    assert_eq!(host.file(&selected), bytes);
    assert_eq!(host.file(&prior), prior_bytes);
    assert!(swap.write(&state, &conf, 3).unwrap().is_none());
    // A changed retry argument must not discard the retention decision.
    let archives = swap.close(false).unwrap();
    assert_eq!(archives.len(), 1);
    assert_eq!(host.file(&archives[0]), bytes);
    assert!(!host.has_file(&selected) && !host.has_file(&prior));
    assert!(host.claim(&archives[0], &conf).is_ok());
}

#[test]
fn archive_directory_sync_failure_retains_both_files_and_retries_publication() {
    for close in [false, true] {
        let host = Host::new();
        let mut state = snapshot("/root");
        let conf = config("/root");
        let selected = once(&host, &state, &conf);
        let bytes = host.file(&selected);
        let mut swap = host.owner();
        swap.adopt(host.claim(&selected, &conf).unwrap());
        state.text.append(Rope::from_str("edited snapshot"));
        host.0.borrow_mut().unreadable.push(b"/root".to_vec());
        let result = if close {
            swap.close(true).map(|_| ())
        } else {
            swap.write(&state, &conf, 2).map(|_| ())
        };
        host.0.borrow_mut().unreadable.clear();
        assert!(result.is_err());
        let archive = swap.archive();
        assert!(swap.swap.recovered[0].original.is_some());
        assert_eq!(host.file(&selected), bytes);
        assert_eq!(host.file(&archive), bytes);
        assert_eq!(host.count("/root"), 2);
        assert!(host.claim(&selected, &conf).is_err());
        assert!(host.claim(&archive, &conf).is_err());
        let retained = if close {
            swap.close(false).unwrap()
        } else {
            assert_eq!(
                units(&swap.write(&state, &conf, 2).unwrap()),
                Some(selected.units.clone())
            );
            assert!(swap.swap.recovered[0].original.is_none());
            assert_snapshot(&host, &host.read(&selected).unwrap(), &state);
            swap.close(true).unwrap()
        };
        assert_eq!(all_units(&retained), vec![archive.units.clone()]);
        assert_eq!(host.file(&archive), bytes);
        assert_eq!(host.count("/root"), 1);
        assert!(host.claim(&archive, &conf).is_ok());
        assert!(!host.has_file(&selected));
    }
}

#[test]
fn replaced_original_blocks_archiving_and_retained_cleanup() {
    let host = Host::new();
    let state = snapshot("/root");
    let conf = config("/root");
    let selected = once(&host, &state, &conf);
    let bytes = host.file(&selected);
    let mut swap = host.owner();
    let prior = swap.write(&state, &conf, 1).unwrap().unwrap();
    swap.adopt(host.claim(&selected, &conf).unwrap());
    let moved = path("/root/moved-original");
    host.0.borrow_mut().rename(&selected.units, &moved.units);
    host.0.borrow_mut().write_file(&selected.units, b"stranger");
    assert!(swap.write(&state, &conf, 2).is_err());
    assert!(swap.close(true).is_err());
    assert!(swap.swap.recovered[0].archive.is_none());
    assert!(host.has_file(&prior));
    assert_eq!(host.file(&moved), bytes);
    assert_eq!(host.file(&selected), b"stranger");
    host.0.borrow_mut().unlink(&selected.units).unwrap();
    host.0.borrow_mut().rename(&moved.units, &selected.units);
    let archives = swap.close(false).unwrap();
    assert_eq!(archives.len(), 1);
    assert_eq!(host.file(&archives[0]), bytes);
    assert!(!host.has_file(&selected) && !host.has_file(&prior));
}

#[test]
fn retained_archives_survive_cleanup_failure_and_retry() {
    let host = Host::new();
    let state = snapshot("/root");
    let conf = config("/root");
    let selected = once(&host, &state, &conf);
    let bytes = host.file(&selected);
    let mut swap = host.owner();
    swap.adopt(host.claim(&selected, &conf).unwrap());
    swap.write(&state, &conf, 2).unwrap();
    let archive = swap.archive();
    let moved_archive = path("/root/moved-archive");
    host.0.borrow_mut().rename(&archive.units, &moved_archive.units);
    host.0
        .borrow_mut()
        .write_file(&archive.units, b"stranger archive");
    assert!(swap.write(&state, &conf, 3).is_err());
    assert!(swap.close(true).is_err());
    assert!(host.has_file(&selected));
    assert_eq!(host.file(&archive), b"stranger archive");
    assert_eq!(host.file(&moved_archive), bytes);
    host.0.borrow_mut().unlink(&archive.units).unwrap();
    host.0.borrow_mut().rename(&moved_archive.units, &archive.units);
    let moved = path("/root/moved-active");
    host.0.borrow_mut().rename(&selected.units, &moved.units);
    host.0.borrow_mut().write_file(&selected.units, b"stranger");
    assert!(swap.close(true).is_err());
    assert_eq!(host.file(&archive), bytes);
    assert_eq!(host.file(&selected), b"stranger");
    host.0.borrow_mut().unlink(&selected.units).unwrap();
    host.0.borrow_mut().rename(&moved.units, &selected.units);
    assert_eq!(
        all_units(&swap.close(false).unwrap()),
        vec![archive.units.clone()]
    );
    assert!(host.claim(&archive, &conf).is_ok());
    assert!(!host.has_file(&selected));
}

#[test]
fn locks_survive_publication_and_replacement() {
    let host = Host::new();
    let state = snapshot("/root");
    let conf = config("/root");
    let mut swap = host.owner();
    let path = swap.write(&state, &conf, 1).unwrap().unwrap();
    for generation in 2..5 {
        assert!(host.claim(&path, &conf).is_err());
        // A reader that was opened before the replacement must not claim the stale file.
        let stale = host.0.borrow().open(&path.units).unwrap();
        assert_eq!(
            units(&swap.write(&state, &conf, generation).unwrap()),
            Some(path.units.clone())
        );
        assert!(host.claim(&path, &conf).is_err());
        let lock = host.0.borrow_mut().lock(stale).unwrap();
        let claimed = host.claim_locked(&path, &conf, stale, lock);
        assert!(claimed.unwrap_err().contains("Replaced"));
        let bytes = host.0.borrow().nodes[stale].bytes.clone();
        let (header, length, rest) = split_file(&bytes).unwrap();
        let decoded = read(header, length, bytes.len() as u64, &rest).unwrap();
        assert_snapshot(&host, &decoded, &state);
        let seen = host.0.borrow().open(&path.units).map(|node| node == stale);
        assert!(check(seen).is_err());
        // What owns the stale file cannot remove the file that took its place.
        let mut owner = host.owner();
        owner.locks.push(lock);
        owner.swap.files.push(OwnedFile {
            path: path.clone(),
            lock,
        });
        assert!(owner.close(false).is_err());
        assert!(host.has_file(&path));
    }
    // The old lock is held until the swap owns the published file.
    let old = host.0.borrow().open(&path.units).unwrap();
    let original = host
        .resolve(state.path.as_ref().unwrap(), &state.cwd)
        .unwrap();
    let resolved = state.at_path(Some(original));
    let header = encode_header(&host.header(&resolved));
    assert!(swap.swap.write(&state, &conf, 9).unwrap());
    let mut progress = swap
        .swap
        .begin(
            resolved,
            header,
            &conf,
            &expand(&conf),
            NativePath::from_text("/state/recovery"),
        )
        .unwrap();
    let mut persisted = false;
    while let Progress::Continue(work) = progress {
        let action = swap.swap.action(&work);
        let publishes = matches!(action, Action::Persist { replace: true, .. });
        let event = host.0.borrow_mut().perform(action);
        if let Event::Locked(Ok(lock)) = &event {
            swap.locks.push(*lock);
        }
        if publishes {
            persisted = true;
            assert!(host.0.borrow_mut().lock(old).is_err());
            assert!(host.claim(&path, &conf).is_err());
        }
        progress = swap.swap.advance(work, event);
        swap.release();
        if publishes {
            let lock = host.0.borrow_mut().lock(old).unwrap();
            host.0.borrow_mut().unlock(lock);
        }
    }
    assert!(persisted);
    drop(swap);
    let recovered = host.claim(&path, &conf).unwrap();
    assert!(host.claim(&path, &conf).is_err());
    drop(recovered);
    assert!(host.claim(&path, &conf).is_ok());
    assert!(host.has_file(&path));
}

#[test]
fn failed_claim_or_identity_check_never_unlinks() {
    let host = Host::new();
    let state = snapshot("/root");
    let conf = config("/root");
    let selected = once(&host, &state, &conf);
    let bytes = host.file(&selected);
    let invalid = Config {
        suffix: "../unsafe".into(),
        ..conf.clone()
    };
    assert!(host.claim(&selected, &invalid).is_err());
    assert_eq!(host.file(&selected), bytes);
    let recovered = host.claim(&selected, &conf).unwrap();
    let moved = path("/root/moved");
    host.0.borrow_mut().rename(&selected.units, &moved.units);
    host.0.borrow_mut().write_file(&selected.units, b"corrupt");
    assert!(recovered.check().is_err());
    assert!(host.claim(&selected, &conf).is_err());
    drop(recovered);
    assert_eq!(host.file(&selected), b"corrupt");
    assert_eq!(host.file(&moved), bytes);
    assert!(host.claim(&moved, &conf).is_ok());
}

#[test]
fn claim_accepts_v1_relative_saved_paths() {
    let host = Host::new();
    let mut state = snapshot("/root");
    state.path = Some(path("example.txt"));
    let legacy = path("/root/legacy.swp");
    let mut header = host.header(&state);
    header.timestamp = 1234;
    header.original_size = Some(5678);
    header.original_modified = Some(9012);
    assert_eq!(header.version, 1);
    raw_file(
        &host,
        &legacy,
        &saved_header(&header),
        state.text.to_string().as_bytes(),
    );
    let conf = Config {
        enable: false,
        directories: vec![path(".")],
        ..config("/root")
    };
    let recovered = host.claim(&legacy, &conf).unwrap();
    let claimed = recovered.recovery();
    assert_eq!(claimed.metadata.timestamp, 1234);
    assert_eq!(claimed.metadata.original_size, Some(5678));
    assert_eq!(claimed.metadata.original_modified, Some(9012));
    assert_eq!(units(&claimed.snapshot.path), units(&state.path));
    assert_eq!(
        units(&claimed.source_path),
        Some(b"/root/example.txt".to_vec())
    );
    assert_eq!(claimed.source_cwd.units, state.cwd.units);
    assert_eq!(all_units(&claimed.directories), vec![b"/root".to_vec()]);
    assert_eq!(claimed.snapshot.text, state.text);
    drop(recovered);
    assert_eq!(
        units(&host.read(&legacy).unwrap().path),
        units(&state.path)
    );
}

#[test]
fn claim_keeps_saved_identity_after_alias_retargeting() {
    let host = Host::new();
    let mut state = snapshot("/root");
    let alias = path("/root/alias");
    let target = state.path.as_ref().unwrap().units.clone();
    host.0
        .borrow_mut()
        .add(&alias.units, Kind::Link(target), b"");
    state.path = Some(alias.clone());
    let conf = Config {
        directories: vec![path(".")],
        ..config("/root")
    };
    let published = once(&host, &state, &conf);
    let saved = host.read(&published).unwrap();
    host.0.borrow_mut().unlink(&alias.units).unwrap();
    host.0.borrow_mut().add(
        &alias.units,
        Kind::Link(b"/root/different.txt".to_vec()),
        b"",
    );
    let recovered = host.claim(&published, &conf).unwrap();
    assert_eq!(units(&recovered.recovery().snapshot.path), units(&saved.path));
    assert_eq!(units(&recovered.recovery().source_path), units(&saved.path));
    let mut swap = host.owner();
    swap.adopt(recovered);
    assert_eq!(
        units(&swap.write(&saved, &conf, 2).unwrap()),
        Some(published.units.clone())
    );
    swap.close(false).unwrap();
    assert!(!host.has_file(&published));
    assert_eq!(
        host.0.borrow().read_link(&alias.units),
        Some(b"/root/different.txt".to_vec())
    );
    // Older headers can hold an alias itself; it is kept as it is too.
    let legacy = path("/root/legacy.swp");
    raw_file(
        &host,
        &legacy,
        &saved_header(&host.header(&state)),
        state.text.to_string().as_bytes(),
    );
    let recovered = host.claim(&legacy, &conf).unwrap();
    assert_eq!(units(&recovered.recovery().snapshot.path), units(&state.path));
    assert_eq!(units(&recovered.recovery().source_path), units(&state.path));
}

#[test]
fn roundtrip_state_and_streamed_utf8() {
    let host = Host::new();
    let mut state = snapshot("/root");
    state.text = Rope::from_str(&state.text.to_string().repeat(20_000));
    let mut swap = host.owner();
    let published = swap.write(&state, &config("/root"), 0).unwrap().unwrap();
    assert_snapshot(&host, &host.read(&published).unwrap(), &state);
    assert!(published.file_name().unwrap().starts_with(PREFIX.as_bytes()));
    assert_eq!(host.count("/root"), 1);
}

#[test]
fn unnamed_and_all_directories() {
    let host = Host::new();
    let mut state = snapshot("/root");
    state.path = None;
    let mut first_swap = host.owner();
    let first = first_swap.write(&state, &config("/root"), 1).unwrap().unwrap();
    let mut second_swap = host.owner();
    let other = second_swap
        .write(&state, &config("/other"), 1)
        .unwrap()
        .unwrap();
    let mut conf = config("/root");
    conf.directories = vec![path("."), path("/other")];
    let found = host.discover(&conf, None, &path("/root")).unwrap();
    assert_eq!(found.candidates.len(), 2);
    let candidates = all_units(&found.candidates);
    assert!(candidates.contains(&first.units) && candidates.contains(&other.units));
    assert!(found.warnings.is_empty());
    assert_snapshot(&host, &host.read(&first).unwrap(), &state);
    assert!(host
        .discover(&conf, None, &path("/other"))
        .unwrap()
        .candidates
        .is_empty());
    assert!(host
        .discover(&conf, Some(&path("example.txt")), &path("/root"))
        .unwrap()
        .candidates
        .is_empty());
}

#[test]
fn directory_resolution_and_fallback() {
    let host = Host::new();
    let mut state = snapshot("/root");
    let mut conf = config("/root");
    conf.directories = vec![path("."), path("relative"), path("~/tmp")];
    state.path = Some(path("subdir/file.txt"));
    let dirs =
        recovery::directories::directories(&conf, &expand(&conf), &state.path, &state.cwd).unwrap();
    assert_eq!(dirs[0].units, b"/root/subdir");
    assert_eq!(dirs[1].units, b"/root/relative");
    assert_eq!(dirs[2].units, b"/home/tmp");
    let blocker = path("/root/not-a-directory");
    host.0.borrow_mut().write_file(&blocker.units, b"untouched");
    conf.directories = vec![path("/root/missing"), blocker.clone(), path("/root")];
    let published = once(&host, &state, &conf);
    assert_eq!(units(&published.parent()), Some(b"/root".to_vec()));
    assert!(!host.has_file(&path("/root/missing")));
    assert_eq!(host.file(&blocker), b"untouched");
    assert_eq!(
        all_units(
            &host
                .discover(&conf, state.path.as_ref(), &path("/root"))
                .unwrap()
                .candidates
        ),
        vec![published.units]
    );
}

#[test]
fn state_directory_creation_is_private_and_write_only() {
    let host = Host::new();
    let directory = path("/state/recovery");
    let arbitrary = path("/root/arbitrary");
    let conf = config("/state/recovery");
    let state = snapshot("/root");
    assert!(host
        .discover(&conf, state.path.as_ref(), &state.cwd)
        .unwrap()
        .candidates
        .is_empty());
    let selected = once(&host, &state, &config("/root"));
    let mut swap = host.owner();
    swap.adopt(host.claim(&selected, &conf).unwrap());
    assert!(!host.has_file(&directory));
    assert!(host
        .owner()
        .write(&state, &config("/root/arbitrary"), 1)
        .is_err());
    assert!(!host.has_file(&arbitrary));
    let published = once(&host, &state, &conf);
    assert_eq!(units(&published.parent()), Some(directory.units.clone()));
    let node = host.0.borrow().node(&directory.units).unwrap();
    assert_eq!(host.0.borrow().nodes[node].mode, 0o700);
    assert_snapshot(&host, &host.read(&published).unwrap(), &state);
    assert!(!host.has_file(&arbitrary));
    swap.close(false).unwrap();
}

#[test]
fn unique_names_and_no_clobber() {
    let host = Host::new();
    let state = snapshot("/root");
    let conf = config("/root");
    let mut first = host.owner();
    let a = first.write(&state, &conf, 1).unwrap().unwrap();
    let b = once(&host, &state, &conf);
    assert_ne!(a.units, b.units);
    let original = host.file(&a);
    // Whatever the next name is, something is already there.
    let next = host.0.borrow().counter + 1;
    let taken = format!("{PREFIX}example.txt-{next:016}.swp");
    let taken = path("/root").join(&path(&taken));
    host.0.borrow_mut().write_file(&taken.units, b"taken");
    assert!(host.owner().write(&state, &conf, 1).is_err());
    assert_eq!(host.file(&taken), b"taken");
    assert_eq!(host.file(&a), original);
    assert_eq!(host.count("/root"), 3);
}

#[test]
fn atomic_replacement_and_failed_write_preserve_last_snapshot() {
    let host = Host::new();
    let mut state = snapshot("/root");
    let conf = config("/root");
    let mut swap = host.owner();
    let published = swap.write(&state, &conf, 1).unwrap().unwrap();
    let old = host.file(&published);
    state.encoding = "x".repeat(MAX_HEADER);
    assert!(swap.write(&state, &conf, 2).is_err());
    assert_eq!(host.file(&published), old);
    state.encoding = "utf-8".into();
    state.text.append(Rope::from_str("new text"));
    // A failed newer attempt also fences off stale jobs.
    assert!(swap.write(&state, &conf, 1).unwrap().is_none());
    let previous = host.0.borrow().open(&published.units).unwrap();
    assert_eq!(
        units(&swap.write(&state, &conf, 2).unwrap()),
        Some(published.units.clone())
    );
    assert_ne!(host.0.borrow().open(&published.units).unwrap(), previous);
    assert_snapshot(&host, &host.read(&published).unwrap(), &state);
    assert_eq!(host.count("/root"), 1);
}

/// Begins a write and performs its actions until one is about to be performed that `stop` picks.
fn stopped_before(
    owner: &mut Owner,
    state: &Snapshot,
    conf: &Config,
    generation: u64,
    stop: fn(&Action) -> bool,
) -> Progress {
    let host = owner.host.clone();
    assert!(owner.swap.write(state, conf, generation).unwrap());
    let resolved = state.at_path(
        state
            .path
            .as_ref()
            .map(|path| host.resolve(path, &state.cwd).unwrap()),
    );
    let header = encode_header(&host.header(&resolved));
    let mut progress = owner
        .swap
        .begin(
            resolved,
            header,
            conf,
            &expand(conf),
            NativePath::from_text("/state/recovery"),
        )
        .unwrap();
    loop {
        match progress {
            Progress::Continue(work) => {
                let action = owner.swap.action(&work);
                if stop(&action) {
                    return Progress::Continue(work);
                }
                let event = host.0.borrow_mut().perform(action);
                if let Event::Locked(Ok(lock)) = &event {
                    owner.locks.push(*lock);
                }
                progress = owner.swap.advance(work, event);
            }
            other => return other,
        }
    }
}

#[test]
fn unpublished_or_failed_publication_leaves_old_file_intact() {
    let host = Host::new();
    let state = snapshot("/root");
    let conf = config("/root");
    let mut swap = host.owner();
    let published = swap.write(&state, &conf, 1).unwrap().unwrap();
    let old = host.file(&published);
    let progress = stopped_before(&mut swap, &state, &conf, 2, |action| {
        matches!(action, Action::LockTemporary)
    });
    assert_eq!(host.file(&published), old);
    // A lost temporary file must fail the publication, not truncate the target.
    let staged = host.0.borrow().temporary.as_ref().unwrap().0.clone();
    host.0.borrow_mut().unlink(&staged).unwrap();
    assert!(swap.drive(progress).is_err());
    assert_eq!(host.file(&published), old);
    assert!(!host.has_file(&NativePath::new(staged)));
    assert_eq!(host.count("/root"), 1);
}

#[test]
fn migration_and_failed_migration() {
    let host = Host::new();
    let mut conf = config("/root");
    conf.directories = vec![path(".")];
    let mut state = snapshot("/root");
    let mut swap = host.owner();
    let old = swap.write(&state, &conf, 1).unwrap().unwrap();
    state.path = Some(path("/root/missing/new.txt"));
    assert!(swap.write(&state, &conf, 2).is_err());
    assert!(host.read(&old).is_ok());
    assert_eq!(swap.path(), Some(old.units.clone()));
    state.path = Some(path("/other/renamed.txt"));
    let new = swap.write(&state, &conf, 3).unwrap().unwrap();
    assert_ne!(old.units, new.units);
    assert!(!host.has_file(&old));
    assert_eq!(units(&new.parent()), Some(b"/other".to_vec()));
    assert_snapshot(&host, &host.read(&new).unwrap(), &state);
    conf.directories = vec![path("/root/unavailable"), path("/root")];
    let moved = swap.write(&state, &conf, 4).unwrap().unwrap();
    assert!(!host.has_file(&new));
    assert_eq!(units(&moved.parent()), Some(b"/root".to_vec()));
    let found = host
        .discover(&conf, state.path.as_ref(), &state.cwd)
        .unwrap();
    assert_eq!(all_units(&found.candidates), vec![moved.units.clone()]);
    conf.suffix = ".recover".into();
    let renamed = swap.write(&state, &conf, 5).unwrap().unwrap();
    assert!(!host.has_file(&moved));
    assert!(renamed.file_name().unwrap().ends_with(b".recover"));
    let found = host
        .discover(&conf, state.path.as_ref(), &state.cwd)
        .unwrap();
    assert_eq!(all_units(&found.candidates), vec![renamed.units.clone()]);
    assert_snapshot(&host, &host.read(&renamed).unwrap(), &state);
    conf.directories = vec![path("/root/unavailable")];
    assert!(swap.write(&state, &conf, 6).is_err());
    assert!(host.read(&renamed).is_ok());
    swap.close(false).unwrap();
}

#[test]
fn migration_publishes_before_cleanup_and_retains_cleanup_failures() {
    let host = Host::new();
    let mut state = snapshot("/root");
    let conf = config("/root");
    let mut swap = host.owner();
    let old = swap.write(&state, &conf, 1).unwrap().unwrap();
    host.0.borrow_mut().rename(&old.units, b"/root/saved-original");
    host.0.borrow_mut().write_file(&old.units, b"stranger");
    state.path = Some(path("/root/renamed.txt"));
    assert!(swap.write(&state, &conf, 2).is_err());
    let new = swap.swap.path().unwrap();
    assert_ne!(old.units, new.units);
    assert_snapshot(&host, &host.read(&new).unwrap(), &state);
    assert_eq!(swap.swap.files.len(), 2);
    assert!(swap.close(false).is_err());
    assert!(!host.has_file(&new));
    assert_eq!(host.file(&old), b"stranger");
    assert!(swap.write(&state, &conf, 3).unwrap().is_none());
}

#[test]
fn relative_original_paths_and_empty_text() {
    let host = Host::new();
    let mut state = snapshot("/root");
    state.path = Some(path("relative.txt"));
    state.text = Rope::new();
    state.selections = vec![(0, 0)];
    state.primary = 0;
    let conf = config("/root");
    let mut swap = host.owner();
    let first = swap.write(&state, &conf, 1).unwrap().unwrap();
    assert_snapshot(&host, &host.read(&first).unwrap(), &state);
    assert_eq!(
        all_units(
            &host
                .discover(&conf, Some(&path("/root/relative.txt")), &path("/root"))
                .unwrap()
                .candidates
        ),
        vec![first.units.clone()]
    );
    assert!(host
        .discover(&conf, Some(&path("different.txt")), &path("/root"))
        .unwrap()
        .candidates
        .is_empty());
    state.cwd = path("/other");
    let second = swap.write(&state, &conf, 2).unwrap().unwrap();
    assert_ne!(first.units, second.units);
    assert!(!host.has_file(&first));
    assert_snapshot(&host, &host.read(&second).unwrap(), &state);
}

#[test]
fn close_drop_and_stale_jobs() {
    let host = Host::new();
    let state = snapshot("/root");
    let conf = config("/root");
    let mut swap = host.owner();
    let path = swap.write(&state, &conf, 10).unwrap().unwrap();
    assert!(swap.write(&state, &conf, 9).unwrap().is_none());
    assert!(swap.write(&state, &conf, 10).unwrap().is_some());
    drop(swap);
    assert!(host.has_file(&path));
    let mut swap = host.owner();
    let owned = swap.write(&state, &conf, 1).unwrap().unwrap();
    swap.close(false).unwrap();
    swap.close(false).unwrap();
    assert!(!host.has_file(&owned));
    assert!(host.has_file(&path));
    assert!(swap.path().is_none());
    assert!(swap.write(&state, &conf, u64::MAX).unwrap().is_none());
    let mut closed = host.owner();
    closed.close(false).unwrap();
    assert!(closed.write(&state, &conf, 1).unwrap().is_none());
}

#[test]
fn disabled_and_byte_threshold() {
    let host = Host::new();
    let state = snapshot("/root");
    let mut conf = config("/root");
    let mut swap = host.owner();
    conf.enable = false;
    assert!(swap.write(&state, &conf, 1).unwrap().is_none());
    conf.enable = true;
    conf.size_threshold = state.text.len_bytes() - 1;
    assert!(swap.write(&state, &conf, 2).unwrap().is_none());
    conf.size_threshold += 1;
    assert!(swap.write(&state, &conf, 3).unwrap().is_some());
}

#[test]
fn malicious_and_truncated_files() {
    let host = Host::new();
    let state = snapshot("/root");
    let malformed = path("/root/malformed");
    let text = state.text.to_string();
    let valid = saved_header(&host.header(&state));
    let whole: Value = vec![vec![0, usize::MAX]].into();
    for (field, value) in [
        ("version", 2.into()),
        ("payload_len", u64::MAX.into()),
        ("payload_len", 0.into()),
        ("selections", Value::Array(vec![])),
        ("selections", whole),
        ("primary", 2.into()),
    ] {
        let mut header = valid.clone();
        header[field] = value;
        raw_file(&host, &malformed, &header, text.as_bytes());
        assert!(host.read(&malformed).is_err(), "{field}");
    }
    raw_file(&host, &malformed, &valid, &vec![0xff; text.len()]);
    assert!(host.read(&malformed).is_err());
    raw_file(&host, &malformed, &valid, text.as_bytes());
    assert_snapshot(&host, &host.read(&malformed).unwrap(), &state);
    let full = host.file(&malformed);
    for length in [0, 14, 17, 20, full.len() - 1] {
        let node = host.0.borrow().node(&malformed.units).unwrap();
        host.0.borrow_mut().nodes[node].bytes = full[..length].to_vec();
        assert!(host.read(&malformed).is_err());
    }
    let node = host.0.borrow().node(&malformed.units).unwrap();
    let mut oversized = b"HELIX-RECOVERY\n".to_vec();
    oversized.extend_from_slice(&u32::MAX.to_be_bytes());
    host.0.borrow_mut().nodes[node].bytes = oversized;
    assert!(host.read(&malformed).is_err());
    let mut trailing = full;
    trailing.push(0);
    host.0.borrow_mut().nodes[node].bytes = trailing;
    assert!(host.read(&malformed).is_err());
    raw_file(&host, &malformed, &Value::Object(serde_json::Map::new()), b"");
    assert!(host.read(&malformed).is_err());
    let mut header = valid.clone();
    header["cwd"] = saved_path(&StoredPath::encode(&path("relative")));
    raw_file(&host, &malformed, &header, text.as_bytes());
    assert!(host.read(&malformed).is_err());
    header = valid;
    header["path"] = saved_path(&StoredPath::encode(&path("bad\0path")));
    raw_file(&host, &malformed, &header, text.as_bytes());
    assert!(host.read(&malformed).is_err());
}

#[test]
fn discovery_reports_corruption_without_hiding_valid_files() {
    let host = Host::new();
    let state = snapshot("/root");
    let conf = config("/root");
    let valid = once(&host, &state, &conf);
    let corrupt = path("/root").join(&path(&format!("{PREFIX}broken.swp")));
    let pending = path("/root").join(&path(&format!("{TEMP_PREFIX}in-progress.swp")));
    host.0
        .borrow_mut()
        .write_file(&corrupt.units, b"HELIX-RECOVERY\n");
    host.0
        .borrow_mut()
        .write_file(b"/root/unrelated.swp", b"ignored");
    host.0.borrow_mut().write_file(&pending.units, b"ignored");
    let found = host
        .discover(&conf, state.path.as_ref(), &path("/root"))
        .unwrap();
    assert_eq!(all_units(&found.candidates), vec![valid.units]);
    assert_eq!(found.warnings.len(), 1);
    assert_eq!(found.warnings[0].0.units, corrupt.units);
    assert_eq!(found.warnings[0].1, "Truncated");
    assert!(host.has_file(&corrupt));
}

#[test]
fn replaced_regular_file_is_not_owned() {
    let host = Host::new();
    let state = snapshot("/root");
    let conf = config("/root");
    let mut swap = host.owner();
    let published = swap.write(&state, &conf, 1).unwrap().unwrap();
    host.0
        .borrow_mut()
        .rename(&published.units, b"/root/saved-original");
    host.0.borrow_mut().write_file(&published.units, b"stranger");
    assert!(swap.write(&state, &conf, 2).is_err());
    assert!(swap.close(false).is_err());
    assert!(swap.write(&state, &conf, 3).unwrap().is_none());
    assert_eq!(host.file(&published), b"stranger");
}

#[test]
fn original_symlinks_share_identity_and_survive_alias_retargeting() {
    let host = Host::new();
    for directory in ["/root/real", "/root/aliases"] {
        host.0
            .borrow_mut()
            .add(directory.as_bytes(), Kind::Directory, b"");
    }
    let target = path("/root/real/original.txt");
    host.0.borrow_mut().write_file(&target.units, b"disk");
    let alias = path("/root/aliases/alias.txt");
    let link = |from: &str, to: &str| {
        host.0
            .borrow_mut()
            .add(from.as_bytes(), Kind::Link(to.as_bytes().to_vec()), b"");
    };
    link("/root/aliases/alias.txt", "/root/real/original.txt");
    link("/root/aliases/parent", "/root/real");
    let conf = Config {
        directories: vec![path(".")],
        ..config("/root")
    };
    let mut state = snapshot("/root");
    state.path = Some(alias.clone());
    let mut swap = host.owner();
    let published = swap.write(&state, &conf, 1).unwrap().unwrap();
    assert_eq!(units(&published.parent()), Some(b"/root/real".to_vec()));
    assert!(published
        .file_name()
        .unwrap()
        .starts_with(b".helix-recovery-original.txt-"));
    assert_eq!(
        units(&host.read(&published).unwrap().path),
        Some(target.units.clone())
    );
    let (header, _, _) = split_file(&host.file(&published)).unwrap();
    assert_eq!(header.original_size, Some(4));
    for original in [
        &alias,
        &target,
        &path("/root/aliases/parent/original.txt"),
    ] {
        let found = host.discover(&conf, Some(original), &path("/root")).unwrap();
        assert_eq!(all_units(&found.candidates), vec![published.units.clone()]);
    }
    state.path = Some(target.clone());
    assert_eq!(
        units(&swap.write(&state, &conf, 2).unwrap()),
        Some(published.units.clone())
    );
    host.0.borrow_mut().write_file(b"/root/real/other.txt", b"other");
    host.0.borrow_mut().unlink(&alias.units).unwrap();
    link("/root/aliases/alias.txt", "/root/real/other.txt");
    assert_eq!(
        units(&host.read(&published).unwrap().path),
        Some(target.units.clone())
    );
    assert!(host
        .discover(&conf, Some(&alias), &path("/root"))
        .unwrap()
        .candidates
        .is_empty());
    let found = host.discover(&conf, Some(&target), &path("/root")).unwrap();
    assert_eq!(all_units(&found.candidates), vec![published.units.clone()]);
    state.path = Some(alias.clone());
    let migrated = swap.write(&state, &conf, 3).unwrap().unwrap();
    assert!(!host.has_file(&published));
    assert_eq!(
        units(&host.read(&migrated).unwrap().path),
        Some(b"/root/real/other.txt".to_vec())
    );
    // An alias of the parent of an original that does not exist yet, and a dangling alias of it.
    let future = path("/root/aliases/parent/future.txt");
    link("/root/aliases/dangling.txt", "/root/aliases/parent/future.txt");
    state.path = Some(path("/root/aliases/dangling.txt"));
    let pending = swap.write(&state, &conf, 4).unwrap().unwrap();
    assert_eq!(
        units(&host.read(&pending).unwrap().path),
        Some(b"/root/real/future.txt".to_vec())
    );
    let found = host.discover(&conf, Some(&future), &path("/root")).unwrap();
    assert_eq!(all_units(&found.candidates), vec![pending.units.clone()]);
    link("/root/aliases/cycle", "/root/aliases/cycle");
    state.path = Some(path("/root/aliases/cycle"));
    assert!(swap.write(&state, &conf, 5).unwrap_err().contains("TooManyLinks"));
    assert!(host.read(&pending).is_ok());
}

#[test]
fn insecure_writable_recovery_files_are_rejected() {
    let host = Host::new();
    let state = snapshot("/root");
    let conf = config("/root");
    let mut swap = host.owner();
    let published = swap.write(&state, &conf, 1).unwrap().unwrap();
    let node = host.0.borrow().node(&published.units).unwrap();
    for mode in [0o620, 0o602, 0o666] {
        host.0.borrow_mut().nodes[node].mode = mode;
        assert!(host.read(&published).is_err());
        let found = host
            .discover(&conf, state.path.as_ref(), &state.cwd)
            .unwrap();
        assert!(found.candidates.is_empty());
        assert_eq!(found.warnings[0].0.units, published.units);
    }
    host.0.borrow_mut().nodes[node].mode = 0o600;
    assert_snapshot(&host, &host.read(&published).unwrap(), &state);
    swap.close(false).unwrap();
}

#[test]
fn incomplete_cleanup_reports_the_surviving_original_archive() {
    let host = Host::new();
    let conf = config("/root");
    let state = snapshot("/root");
    let mut owner = host.owner();
    let previous = owner.write(&state, &conf, 1).unwrap().unwrap();
    let selected = once(&host, &state, &conf);
    let original = host.file(&selected);
    owner.adopt(host.claim(&selected, &conf).unwrap());
    host.0.borrow_mut().unlink(&previous.units).unwrap();
    host.0
        .borrow_mut()
        .write_file(&previous.units, b"replacement that must not be removed");
    let progress = owner.swap.close(true);
    let mut progress = progress;
    let failure = loop {
        match progress {
            Progress::Continue(work) => {
                let event = host.0.borrow_mut().perform(owner.swap.action(&work));
                if let Event::Locked(Ok(lock)) = &event {
                    owner.locks.push(*lock);
                }
                progress = owner.swap.advance(work, event);
            }
            Progress::Failed(failure) => break failure,
            other => panic!("{other:?}"),
        }
    };
    let archive = owner.archive();
    assert_eq!(all_units(&failure.backups), vec![archive.units.clone()]);
    assert_eq!(host.file(&archive), original);
    assert!(!host.has_file(&selected));
    assert!(host.has_file(&previous));
    drop(owner);
    assert!(host.claim(&archive, &conf).is_ok());
}

#[test]
fn unix_paths_permissions_and_symlinks() {
    let host = Host::new();
    let mut state = snapshot("/root");
    state.path = Some(NativePath::new(b"/root/non-utf8-\xff".to_vec()));
    let conf = config("/root");
    let mut swap = host.owner();
    let published = swap.write(&state, &conf, 1).unwrap().unwrap();
    assert_snapshot(&host, &host.read(&published).unwrap(), &state);
    let node = host.0.borrow().node(&published.units).unwrap();
    assert_eq!(host.0.borrow().nodes[node].mode, 0o600);
    assert!(published
        .file_name()
        .unwrap()
        .starts_with(b".helix-recovery-unnamed-"));
    let mut other = host.owner();
    let staged = stopped_before(&mut other, &state, &conf, 1, |action| {
        matches!(action, Action::Persist { .. })
    });
    let (temporary, node) = host.0.borrow().temporary.clone().unwrap();
    assert_eq!(host.0.borrow().nodes[node].mode, 0o600);
    drop(staged);
    host.0.borrow_mut().unlink(&temporary).unwrap();
    drop(other);
    let link = path("/root").join(&path(&format!("{PREFIX}link.swp")));
    host.0
        .borrow_mut()
        .add(&link.units, Kind::Link(published.units.clone()), b"");
    assert!(host.read(&link).is_err());
    host.0.borrow_mut().unlink(&published.units).unwrap();
    let stranger = path("/root/stranger");
    host.0.borrow_mut().write_file(&stranger.units, b"untouched");
    host.0
        .borrow_mut()
        .add(&published.units, Kind::Link(stranger.units.clone()), b"");
    assert!(swap.write(&state, &conf, 2).is_err());
    assert!(swap.close(false).is_err());
    assert!(swap.write(&state, &conf, 3).unwrap().is_none());
    assert!(host.0.borrow().read_link(&published.units).is_some());
    assert_eq!(host.file(&stranger), b"untouched");
}

#[test]
fn a_snapshot_is_not_published_onto_a_link() {
    let host = Host::new();
    let state = snapshot("/root");
    let conf = config("/root");
    let stranger = path("/root/stranger");
    host.0.borrow_mut().write_file(&stranger.units, b"untouched");
    // Whatever the next name is, a link is already there.
    let next = host.0.borrow().counter + 1;
    let link = path("/root").join(&path(&format!("{PREFIX}example.txt-{next:016}.swp")));
    host.0
        .borrow_mut()
        .add(&link.units, Kind::Link(stranger.units.clone()), b"");
    let mut swap = host.owner();
    assert!(swap.write(&state, &conf, 1).is_err());
    assert!(swap.path().is_none());
    assert_eq!(
        host.0.borrow().read_link(&link.units),
        Some(stranger.units.clone())
    );
    assert_eq!(host.file(&stranger), b"untouched");
}

#[test]
fn unnamed_non_utf8_cwd_and_discovery() {
    let host = Host::new();
    let cwd = NativePath::new(b"/root/cwd-\xff".to_vec());
    let mut state = snapshot("/root");
    state.cwd = cwd.clone();
    state.path = None;
    let conf = Config {
        directories: vec![path("."), path("/root")],
        ..config("/root")
    };
    let published = once(&host, &state, &conf);
    assert_snapshot(&host, &host.read(&published).unwrap(), &state);
    assert_eq!(
        all_units(&host.discover(&conf, None, &cwd).unwrap().candidates),
        vec![published.units]
    );
}

// The state of one document, with its writer run when it is polled.

struct Document {
    state: State,
    owner: Owner,
    job: Option<(Snapshot, Config, u64)>,
    error: String,
    epoch: Instant,
    now: u64,
}

fn scratch(text: &str) -> Snapshot {
    Snapshot {
        path: None,
        cwd: path("/root"),
        text: Rope::from_str(text),
        encoding: "UTF-8".into(),
        has_bom: false,
        line_ending: "lf".into(),
        selections: vec![(0, 0)],
        primary: 0,
    }
}

fn document() -> Document {
    Document {
        state: State::new(Some(path("/root")), None),
        owner: Host::new().owner(),
        job: None,
        error: String::new(),
        epoch: Instant::now(),
        now: 1_000_000_000,
    }
}

impl Document {
    fn record(&mut self, text: &str, config: &Config, changed: usize) {
        self.state
            .record(scratch(text), config.clone(), changed, &self.epoch, self.now);
    }

    fn run_job(&mut self) -> Outcome {
        let (snapshot, config, generation) = self.job.take().unwrap();
        match self.owner.write(&snapshot, &config, generation) {
            Ok(path) => Outcome::Written(path),
            Err(error) => {
                self.error = error;
                Outcome::Failed
            }
        }
    }

    /// Starts what is due, without waiting for a writer.
    fn start(&mut self) -> Step {
        let step = self.state.poll(self.now);
        match step {
            Step::StartWorker(snapshot, config, generation) => {
                self.job = Some((snapshot, config, generation));
                Step::PollWorker
            }
            other => other,
        }
    }

    fn poll(&mut self) -> Option<Result<Option<String>, String>> {
        let mut step = self.state.poll(self.now);
        loop {
            step = match step {
                Step::Idle | Step::PollSleep(_) => return None,
                Step::Report(notice) => {
                    return Some(Ok(notice.map(|notice| match notice {
                        Notice::Oversized(limit) => format!("over {limit}"),
                        Notice::UpdateTimeTooLarge => "too large".to_string(),
                        Notice::RecoveryFile(path) => {
                            format!("Recovery file: {}", text(&path.units))
                        }
                    })))
                }
                Step::ReportFailure => return Some(Err(self.error.clone())),
                Step::PollWorker => {
                    let outcome = self.run_job();
                    self.state.worker_done(outcome, self.now)
                }
                Step::StartWorker(snapshot, config, generation) => {
                    self.job = Some((snapshot, config, generation));
                    Step::PollWorker
                }
            };
        }
    }

    fn preserve(&mut self, text: &str, config: &Config) -> Result<NativePath, String> {
        let snapshot = scratch(text);
        let (config, generation) = self
            .state
            .preserve(&snapshot, config.clone())
            .map_err(|e| format!("{e:?}"))?;
        let path = self.owner.write(&snapshot, &config, generation)?;
        self.state
            .preserved(snapshot.path.is_none(), config.size_threshold, path)
            .map_err(|e| format!("{e:?}"))
    }

    fn close(&mut self, keep: bool) -> Result<Vec<NativePath>, String> {
        let retain = self.state.close(keep);
        let retained = self.owner.close(retain)?;
        self.state.released();
        Ok(retained)
    }

    fn saved(&self) -> String {
        let path = self.state.path().unwrap();
        self.owner.host.read(&path).unwrap().text.to_string()
    }
}

#[test]
fn first_edit_is_immediate_and_inflight_edits_coalesce() {
    let config = config("/root");
    let mut document = document();
    document.record("first", &config, 1);
    assert!(document.state.deadline.unwrap() <= document.now as u128);
    // The job is started without waiting for it.
    assert!(matches!(document.start(), Step::PollWorker));
    assert_eq!(document.state.changed_chars, 0);
    document.record("second", &config, 100);
    let deadline = document.state.deadline.unwrap();
    document.record("latest", &config, 100);
    assert!(document.state.deadline.unwrap() <= deadline);
    let (pending, _) = document.state.pending.as_ref().unwrap();
    assert_eq!(pending.text.to_string(), "latest");
    let first = document.poll().unwrap();
    assert!(first.unwrap().unwrap().starts_with("Recovery file:"));
    assert!(document.poll().unwrap().unwrap().is_none());
    assert_eq!(document.saved(), "latest");
    assert!(!document.state.pending());
    document.close(false).unwrap();
}

#[test]
fn failure_waits_for_an_edit_not_metadata_refresh() {
    let mut config = config("/root");
    let mut document = document();
    config.directories.clear();
    document.record("a", &config, 1);
    assert!(document.poll().unwrap().is_err());
    assert!(!document.state.pending());
    let (epoch, now) = (document.epoch, document.now);
    document
        .state
        .refresh(None, "UTF-8".into(), false, "lf".into(), config.clone(), &epoch, now);
    assert!(!document.state.pending());
    assert!(document.poll().is_none());
    document.record("b", &config, 200);
    assert!(document.state.pending());
    assert!(document.poll().unwrap().is_err());
    assert!(!document.state.pending());
}

#[test]
fn size_limit_warns_once_and_keeps_previous_file() {
    let mut config = config("/root");
    let mut document = document();
    let path = document.preserve("a", &config).unwrap();
    config.size_threshold = 1;
    document.record("too large", &config, 200);
    assert_eq!(document.poll().unwrap().unwrap().unwrap(), "over 1");
    document.record("still too large", &config, 200);
    assert!(!document.state.pending());
    assert_eq!(document.saved(), "a");
    document.record("b", &config, 200);
    assert!(document.poll().unwrap().unwrap().is_none());
    assert_eq!(units(&document.state.path()), Some(path.units));
    assert_eq!(document.saved(), "b");
    document.close(false).unwrap();
}

#[test]
fn manual_preserve_fences_older_worker_even_when_disabled() {
    let mut config = config("/root");
    let mut document = document();
    document.record("old", &config, 1);
    assert!(matches!(document.start(), Step::PollWorker));
    config.enable = false;
    let path = document.preserve("new", &config).unwrap();
    // The older job comes after the explicit write.
    let outcome = document.run_job();
    assert!(matches!(outcome, Outcome::Written(None)));
    assert!(matches!(
        document.state.worker_done(outcome, document.now),
        Step::Idle
    ));
    assert_eq!(units(&document.state.path()), Some(path.units));
    assert_eq!(document.saved(), "new");
    assert!(!document.state.pending());
    document.close(false).unwrap();
}

#[test]
fn metadata_refresh_keeps_latest_safe_text_and_migrates_on_poll() {
    let config = config("/root");
    let mut document = document();
    let old_path = document.preserve("saved", &config).unwrap();
    document.record("newer edit", &config, 1);
    let original = Some(path("/root/renamed.txt"));
    let (epoch, now) = (document.epoch, document.now);
    document.state.refresh(
        original.clone(),
        "UTF-16LE".into(),
        true,
        "crlf".into(),
        config.clone(),
        &epoch,
        now,
    );
    assert_eq!(
        units(&document.state.path()),
        Some(old_path.units.clone())
    );
    assert_eq!(document.saved(), "saved");
    assert!(document.poll().unwrap().unwrap().is_none());
    let path = document.state.path().unwrap();
    assert_ne!(path.units, old_path.units);
    assert!(!document.owner.host.has_file(&old_path));
    let saved = document.owner.host.read(&path).unwrap();
    assert_eq!(saved.text.to_string(), "newer edit");
    assert_eq!(units(&saved.path), units(&original));
    assert_eq!(saved.encoding, "UTF-16LE");
    assert!(saved.has_bom);
    assert_eq!(saved.line_ending, "crlf");
    document
        .state
        .refresh(original, "UTF-8".into(), false, "lf".into(), config, &epoch, now);
    assert!(document.poll().unwrap().unwrap().is_none());
    assert_eq!(units(&document.state.path()), Some(path.units));
    document.close(false).unwrap();
}

#[test]
fn close_fences_inflight_and_future_writes() {
    let config = config("/root");
    let mut document = document();
    let path = document.preserve("a", &config).unwrap();
    document.record("a", &config, 200);
    assert!(matches!(document.start(), Step::PollWorker));
    document.close(false).unwrap();
    assert!(!document.state.pending());
    assert!(!document.owner.host.has_file(&path));
    assert!(document
        .owner
        .write(&scratch("a"), &config, u64::MAX)
        .unwrap()
        .is_none());
    document.record("a", &config, 200);
    assert!(!document.state.pending());
    assert!(document.poll().is_none());
}

#[test]
fn recovered_work_is_retained_until_it_is_saved() {
    for (saved, keep, retained) in [
        (None, false, 1),
        (Some(6), false, 1),
        (Some(7), false, 0),
        (Some(8), true, 1),
    ] {
        let config = config("/root");
        let mut document = document();
        let selected = once(&document.owner.host, &scratch("lost"), &config);
        let claim = document.owner.host.claim(&selected, &config).unwrap();
        document.owner.locks.push(claim.lock);
        let mut claim = claim;
        let recovered = claim.recovery.take().unwrap();
        let snapshot = recovered.snapshot.clone();
        document
            .state
            .recovered(&mut document.owner.swap, recovered, snapshot, 7);
        assert_eq!(units(&document.state.path()), Some(selected.units.clone()));
        document.preserve("continued", &config).unwrap();
        if let Some(revision) = saved {
            document.state.mark_written(revision);
        }
        assert_eq!(document.close(keep).unwrap().len(), retained);
        assert_eq!(document.owner.host.count("/root"), retained);
    }
}

#[test]
fn contents_are_flushed_and_synced_before_older_files_go() {
    let host = Host::new();
    let mut state = snapshot("/root");
    let conf = config("/root");
    let mut swap = host.owner();
    let old = swap.write(&state, &conf, 1).unwrap().unwrap();
    host.0.borrow_mut().log.clear();
    state.path = Some(path("/root/renamed.txt"));
    swap.write(&state, &conf, 2).unwrap();
    let log = host.0.borrow().log.clone();
    assert_eq!(
        log,
        vec![
            "flush".to_string(),
            "persist false".to_string(),
            "sync /root".to_string(),
            format!("check {}", text(&old.units)),
            format!("unlink {}", text(&old.units)),
            "sync /root".to_string(),
        ]
    );
    // A replacement checks the current file before it is staged and before it is renamed.
    let current = swap.swap.path().unwrap();
    host.0.borrow_mut().log.clear();
    swap.write(&state, &conf, 3).unwrap();
    let check = format!("check {}", text(&current.units));
    assert_eq!(
        host.0.borrow().log.clone(),
        vec![
            check.clone(),
            "flush".to_string(),
            check,
            "persist true".to_string(),
            "sync /root".to_string(),
        ]
    );
}

#[test]
fn claims_report_each_fault() {
    let host = Host::new();
    let conf = config("/root");
    let state = snapshot("/root");
    let opened = |path: &str, seen: Result<bool, String>| {
        let rest = state.text.to_string().into_bytes();
        let header = host.header(&state);
        Opened {
            path: NativePath::from_text(path),
            lock: 1,
            file_length: (PREAMBLE + 10 + rest.len()) as u64,
            header,
            length: 10,
            rest,
            seen,
        }
    };
    let expanded = expand(&conf);
    assert!(claim(opened("/root/a", Ok(true)), &conf, &expanded).is_ok());
    assert!(matches!(
        claim(opened("/", Ok(true)), &conf, &expanded),
        Err(ClaimError::NotRegular)
    ));
    let mut short = opened("/root/a", Ok(true));
    short.file_length -= 1;
    assert!(matches!(
        claim(short, &conf, &expanded),
        Err(ClaimError::Read(_))
    ));
    let stuck = Config {
        update_count: 0,
        ..conf.clone()
    };
    assert!(matches!(
        claim(opened("/root/a", Ok(true)), &stuck, &expanded),
        Err(ClaimError::Directories(_))
    ));
    assert!(matches!(
        claim(opened("/root/a", Ok(false)), &conf, &expanded),
        Err(ClaimError::Check(_))
    ));
    assert!(matches!(
        claim(opened("/root/a", Err("gone".to_string())), &conf, &expanded),
        Err(ClaimError::Check(_))
    ));
}

#[test]
fn every_directory_is_reported_when_none_is_usable() {
    let host = Host::new();
    let state = snapshot("/root");
    let mut conf = config("/root/missing");
    conf.directories.push(path("/root"));
    host.0.borrow_mut().frozen.push(b"/root".to_vec());
    let error = host.owner().write(&state, &conf, 1).unwrap_err();
    assert!(error.contains("NoUsableDirectory"));
    assert!(error.contains("no such directory") && error.contains("permission denied"));
    let mut file = host.owner();
    host.0.borrow_mut().frozen.clear();
    let published = file.write(&state, &conf, 2).unwrap().unwrap();
    assert_eq!(
        host.file(&published),
        encode_file(
            &encode_header(&host.header(&state)),
            &state.text
        )
    );
}

#[test]
fn a_copy_is_made_once_and_keeps_its_path() {
    let host = Host::new();
    let mut state = snapshot("/root");
    let conf = config("/root");
    let selected = once(&host, &state, &conf);
    let recovered = host.file(&selected);
    let mut owner = host.owner();
    owner.adopt(host.claim(&selected, &conf).unwrap());
    owner.write(&state, &conf, 1).unwrap().unwrap();
    let archive = owner.archive();
    let name = archive.file_name().unwrap();
    assert_eq!(units(&archive.parent()), units(&selected.parent()));
    assert!(name.starts_with(ARCHIVE_PREFIX.as_bytes()));
    assert!(name.ends_with(ARCHIVE_SUFFIX.as_bytes()));
    assert_eq!(host.file(&archive), recovered);
    for generation in 2..4 {
        state.text.append(Rope::from_str("more"));
        owner.write(&state, &conf, generation).unwrap().unwrap();
        assert_eq!(owner.archive().units, archive.units);
        assert_eq!(host.count("/root"), 2);
    }
    assert_eq!(all_units(&owner.close(true).unwrap()), vec![archive.units.clone()]);
    assert_eq!(host.file(&archive), recovered);
    assert_eq!(host.count("/root"), 1);
}

#[test]
fn a_write_keeps_its_path_until_something_relevant_changes() {
    let host = Host::new();
    let mut state = snapshot("/root");
    let mut conf = config("/root");
    let mut owner = host.owner();
    let first = owner.write(&state, &conf, 1).unwrap().unwrap();
    state.text.append(Rope::from_str("more"));
    state.encoding = "UTF-16LE".into();
    conf.size_threshold = 0;
    conf.update_time = 9;
    let second = owner.write(&state, &conf, 2).unwrap().unwrap();
    assert_eq!(second.units, first.units);
    conf.suffix = ".bak".into();
    let third = owner.write(&state, &conf, 3).unwrap().unwrap();
    assert_ne!(third.units, second.units);
    state.path = Some(path("/root/other.txt"));
    let fourth = owner.write(&state, &conf, 4).unwrap().unwrap();
    assert_ne!(fourth.units, third.units);
    assert_eq!(host.count("/root"), 1);
}

#[test]
fn a_search_depends_on_directories_and_suffix_alone() {
    let host = Host::new();
    let state = snapshot("/root");
    let conf = config("/root");
    let mut found = vec![once(&host, &state, &conf).units, once(&host, &state, &conf).units];
    found.sort();
    let other = Config {
        enable: false,
        keep_recovered: !conf.keep_recovered,
        size_threshold: 1,
        update_count: 1,
        update_time: 1,
        ..conf.clone()
    };
    for conf in [&conf, &other] {
        let discovery = host.discover(conf, state.path.as_ref(), &state.cwd).unwrap();
        assert_eq!(all_units(&discovery.candidates), found);
    }
}

#[test]
fn a_resolved_path_resolves_to_itself() {
    let host = Host::new();
    host.0.borrow_mut().add(b"/root/real", Kind::Directory, b"");
    host.0
        .borrow_mut()
        .add(b"/root/alias", Kind::Link(b"real".to_vec()), b"");
    host.0
        .borrow_mut()
        .add(b"/root/dangling", Kind::Link(b"alias/new".to_vec()), b"");
    host.0.borrow_mut().write_file(b"/root/file.txt", b"");
    let cwd = path("/root");
    for (given, resolved) in [
        ("alias", "/root/real"),
        ("alias/missing//name", "/root/real/missing//name"),
        ("dangling", "/root/real/new"),
        ("/nowhere/at/all", "/nowhere/at/all"),
        ("/nowhere/x//", "/nowhere/x"),
        ("alias/missing/", "/root/real/missing"),
        ("file.txt/", "/root/file.txt"),
    ] {
        let found = host.resolve(&path(given), &cwd).unwrap();
        assert_eq!(text(&found.units), resolved);
        let again = host.resolve(&found, &path("/other")).unwrap();
        assert_eq!(text(&again.units), resolved);
    }
    // A separator behind a dangling link hides it once.
    let hidden = host.resolve(&path("dangling/"), &cwd).unwrap();
    assert_eq!(text(&hidden.units), "/root/dangling");
    let found = host.resolve(&hidden, &cwd).unwrap();
    assert_eq!(text(&found.units), "/root/real/new");
}

#[test]
fn a_written_file_is_found_again() {
    for named in [true, false] {
        let host = Host::new();
        let mut state = snapshot("/root");
        if !named {
            state.path = None;
        }
        let conf = Config {
            suffix: ".bak".into(),
            directories: vec![path("/missing"), path("/other")],
            ..config("/root")
        };
        let mut swap = host.owner();
        for generation in 1..3 {
            state.text.append(Rope::from_str("more"));
            let published = swap.write(&state, &conf, generation).unwrap().unwrap();
            let name = published.file_name().unwrap();
            assert!(name.starts_with(PREFIX.as_bytes()) && name.ends_with(b".bak"));
            let discovery = host
                .discover(&conf, state.path.as_ref(), &state.cwd)
                .unwrap();
            assert_eq!(all_units(&discovery.candidates), vec![published.units]);
        }
        let other = Config {
            suffix: ".swp".into(),
            ..conf
        };
        let discovery = host
            .discover(&other, state.path.as_ref(), &state.cwd)
            .unwrap();
        assert!(discovery.candidates.is_empty());
    }
}
