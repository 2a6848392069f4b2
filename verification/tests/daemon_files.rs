use std::collections::BTreeMap;

use mcp_cli::config::{
    ConfigHash, ServerDefinition, ServerId, ToolFilterConfig, TransportConfig,
};
use mcp_cli::daemon::files::{
    ArtifactIdentity, FileAction, FileFacts, FileKind, FileReply, Flow, PathFault, Place,
};
use mcp_cli::daemon::metadata::{MetadataFault, MetadataFlow};
use mcp_cli::daemon::paths::{
    is_valid_server_id, locate_during_set_up, temporary_root, validate_artifact_metadata,
    ArtifactKind, LOCK_SUFFIX, PID_SUFFIX, SOCKET_SUFFIX,
};
use mcp_cli::daemon::worker::startup::{
    acquire_lock, bind_worker_socket, failed_child_leftovers, owned_lock_for_pid, Ownership,
    StartupFlow,
};
use mcp_cli::daemon::worker::{WorkerBootstrapEnvelope, WorkerBootstrapError};
use mcp_cli::daemon::{
    DaemonPathError, DaemonPaths, MetadataError, MetadataStore, PidMetadata,
    PID_METADATA_MAX_BYTES,
};
use mcp_cli::json::{parse_json, JsonObject, JsonValue};
use mcp_cli::time::{Duration, SystemTime};

const UID: u32 = 1000;

#[derive(Clone)]
struct Entry {
    facts: FileFacts,
    bytes: Vec<u8>,
    target: Vec<u8>,
}

/// An in-memory file system that answers what the library asks.
struct Disk {
    entries: BTreeMap<Vec<u8>, Entry>,
    next_inode: u64,
    opened: Vec<u8>,
    temporary: Vec<u8>,
    metadata: PidMetadata,
    repeats: bool,
    nonces: u8,
    failing: Option<FileAction>,
    trace: Vec<FileAction>,
}

impl Disk {
    fn new() -> Self {
        let mut disk = Disk {
            entries: BTreeMap::new(),
            next_inode: 10,
            opened: Vec::new(),
            temporary: Vec::new(),
            metadata: sample_metadata(),
            repeats: false,
            nonces: 0,
            failing: None,
            trace: Vec::new(),
        };
        disk.put(b"/tmp", FileKind::Directory, 0o1777, b"");
        disk
    }

    fn put(&mut self, path: &[u8], kind: FileKind, mode: u32, bytes: &[u8]) {
        self.next_inode += 1;
        let facts = FileFacts {
            kind,
            uid: UID,
            mode,
            device: 7,
            inode: self.next_inode,
            length: bytes.len() as u64,
        };
        self.entries.insert(
            path.to_vec(),
            Entry {
                facts,
                bytes: bytes.to_vec(),
                target: Vec::new(),
            },
        );
    }

    fn link(&mut self, path: &[u8], target: &[u8]) {
        self.put(path, FileKind::Symlink, 0o777, b"");
        self.entries.get_mut(path).unwrap().target = target.to_vec();
    }

    fn own(&mut self, path: &[u8], uid: u32) {
        self.entries.get_mut(path).unwrap().facts.uid = uid;
    }

    fn mode(&self, path: &[u8]) -> u32 {
        self.entries[path].facts.mode & 0o7777
    }

    fn holds(&self, path: &[u8]) -> bool {
        self.entries.contains_key(path)
    }

    fn below(&self, directory: &[u8]) -> usize {
        let mut prefix = directory.to_vec();
        prefix.push(b'/');
        self.entries
            .keys()
            .filter(|path| path.starts_with(&prefix))
            .count()
    }

    fn resolve(&self, path: &[u8]) -> Option<Vec<u8>> {
        let entry = self.entries.get(path)?;
        if entry.facts.kind == FileKind::Symlink {
            self.resolve(&entry.target)
        } else {
            Some(path.to_vec())
        }
    }

    fn show(&self, path: &[u8]) -> FileReply {
        match self.entries.get(path) {
            Some(entry) => FileReply::Facts(entry.facts),
            None => FileReply::Missing,
        }
    }

    fn perform(&mut self, action: FileAction, locate: &dyn Fn(Place) -> Vec<u8>) -> FileReply {
        self.trace.push(action);
        if self.failing == Some(action) {
            return FileReply::Failed;
        }
        match action {
            FileAction::Inspect(place) => self.show(&locate(place)),
            FileAction::Follow(place) => match self.resolve(&locate(place)) {
                Some(path) => self.show(&path),
                None => FileReply::Missing,
            },
            FileAction::Resolve(place) => match self.resolve(&locate(place)) {
                Some(path) => FileReply::Path(path),
                None => FileReply::Missing,
            },
            FileAction::CreateDirectory(place) => {
                let path = locate(place);
                if self.holds(&path) {
                    return FileReply::Exists;
                }
                self.put(&path, FileKind::Directory, 0o700, b"");
                FileReply::Done
            }
            FileAction::SetMode(place, mode) => {
                let path = match place {
                    Place::Temporary => self.temporary.clone(),
                    _ => locate(place),
                };
                match self.entries.get_mut(&path) {
                    Some(entry) => {
                        entry.facts.mode = mode;
                        FileReply::Done
                    }
                    None => FileReply::Missing,
                }
            }
            FileAction::Remove(place) => match self.entries.remove(&locate(place)) {
                Some(_) => FileReply::Done,
                None => FileReply::Missing,
            },
            FileAction::DrawNonce => {
                self.nonces += 1;
                FileReply::Bytes(vec![self.nonces; 16])
            }
            FileAction::CreateTemporary(mode) => {
                self.temporary = locate(Place::Temporary);
                let path = self.temporary.clone();
                if self.holds(&path) {
                    return FileReply::Exists;
                }
                self.put(&path, FileKind::Regular, mode, b"");
                FileReply::Done
            }
            FileAction::WriteTemporary => {
                let encoded = self.metadata.to_json();
                let entry = self.entries.get_mut(&self.temporary).unwrap();
                entry.facts.length = encoded.len() as u64;
                entry.bytes = encoded;
                FileReply::Done
            }
            FileAction::FlushTemporary
            | FileAction::SyncTemporary
            | FileAction::BeforeRename
            | FileAction::SyncDirectory(_) => FileReply::Done,
            FileAction::InspectOpened(Place::Temporary) => self.show(&self.temporary),
            FileAction::InspectOpened(_) => self.show(&self.opened),
            FileAction::Publish => {
                let entry = self.entries.remove(&self.temporary).unwrap();
                self.entries.insert(locate(Place::Pid), entry);
                FileReply::Done
            }
            FileAction::Open(place) => {
                self.opened = locate(place);
                if self.holds(&self.opened) {
                    FileReply::Done
                } else {
                    FileReply::Missing
                }
            }
            FileAction::ReadOpened(most) => {
                let bytes = &self.entries[&self.opened].bytes;
                FileReply::Bytes(bytes[..bytes.len().min(most)].to_vec())
            }
            FileAction::CheckNames(answer) => {
                assert_eq!(answer, 8);
                if self.repeats {
                    FileReply::Failed
                } else {
                    FileReply::Done
                }
            }
            FileAction::CreateLock(mode) => {
                let path = locate(Place::Lock);
                if self.holds(&path) {
                    return FileReply::Exists;
                }
                self.put(&path, FileKind::Regular, mode, b"");
                FileReply::Done
            }
            FileAction::FillLock => {
                let path = locate(Place::Lock);
                self.entries.get_mut(&path).unwrap().bytes = b"4242".to_vec();
                FileReply::Done
            }
            FileAction::BindSocket => {
                self.put(&locate(Place::Socket), FileKind::Socket, 0o755, b"");
                FileReply::Done
            }
            FileAction::ReadLink(_) | FileAction::ReadText(_) => FileReply::Failed,
        }
    }

    fn set_up(&mut self, root: &[u8], id: &ServerId, uid: u32) -> Result<DaemonPaths, PathFault> {
        let mut replies = Vec::new();
        loop {
            match DaemonPaths::from_runtime_parent(id, uid, &replies) {
                Flow::Gives(paths) => return Ok(paths),
                Flow::Fails(fault) => return Err(fault),
                Flow::Asks(action) => {
                    let known = replies.clone();
                    let reply = self.perform(action, &|place| {
                        locate_during_set_up(place, root, id, uid, &known)
                    });
                    replies.push(reply);
                }
            }
        }
    }

    fn drive<T>(
        &mut self,
        paths: &DaemonPaths,
        step: &dyn Fn(&[FileReply]) -> Flow<T>,
    ) -> Result<T, PathFault> {
        let mut replies = Vec::new();
        loop {
            match step(&replies) {
                Flow::Gives(value) => return Ok(value),
                Flow::Fails(fault) => return Err(fault),
                Flow::Asks(action) => {
                    let reply = self.perform(action, &|place| paths.artifact(place).to_vec());
                    replies.push(reply);
                }
            }
        }
    }

    fn write(&mut self, store: &MetadataStore) -> Result<(), MetadataFault> {
        let metadata = self.metadata;
        let mut replies: Vec<FileReply> = Vec::new();
        loop {
            match store.write(&metadata, &replies) {
                MetadataFlow::Gives(()) => {
                    assert!(!store.leaves_temporary(&metadata, &replies));
                    return Ok(());
                }
                MetadataFlow::Fails(fault) => {
                    if store.leaves_temporary(&metadata, &replies) {
                        let path = self.temporary.clone();
                        self.entries.remove(&path);
                    }
                    return Err(fault);
                }
                MetadataFlow::Asks(action) => {
                    let nonce = match replies.last() {
                        Some(FileReply::Bytes(bytes)) => bytes.clone(),
                        _ => Vec::new(),
                    };
                    let reply = self.perform(action, &|place| match place {
                        Place::Temporary => store.temporary_path(&nonce).unwrap(),
                        _ => store.paths().artifact(place).to_vec(),
                    });
                    replies.push(reply);
                }
            }
        }
    }

    fn read(&mut self, store: &MetadataStore) -> Result<PidMetadata, MetadataFault> {
        let mut replies = Vec::new();
        loop {
            match store.read(&replies) {
                MetadataFlow::Gives(metadata) => return Ok(metadata),
                MetadataFlow::Fails(fault) => return Err(fault),
                MetadataFlow::Asks(action) => {
                    let reply =
                        self.perform(action, &|place| store.paths().artifact(place).to_vec());
                    replies.push(reply);
                }
            }
        }
    }

    fn remove(&mut self, store: &MetadataStore) -> Result<bool, MetadataFault> {
        let mut replies = Vec::new();
        loop {
            match store.remove(&replies) {
                MetadataFlow::Gives(removed) => return Ok(removed),
                MetadataFlow::Fails(fault) => return Err(fault),
                MetadataFlow::Asks(action) => {
                    let reply =
                        self.perform(action, &|place| store.paths().artifact(place).to_vec());
                    replies.push(reply);
                }
            }
        }
    }

    fn start<T>(
        &mut self,
        paths: &DaemonPaths,
        step: &dyn Fn(&[FileReply]) -> StartupFlow<T>,
    ) -> Result<T, WorkerBootstrapError> {
        let mut replies = Vec::new();
        loop {
            match step(&replies) {
                StartupFlow::Gives(value) => return Ok(value),
                StartupFlow::Fails(failure) => return Err(failure),
                StartupFlow::Asks(action) => {
                    let reply = self.perform(action, &|place| paths.artifact(place).to_vec());
                    replies.push(reply);
                }
            }
        }
    }

    fn owner(&mut self, paths: &DaemonPaths, pid: u32) -> Option<ArtifactIdentity> {
        let mut replies = Vec::new();
        loop {
            match owned_lock_for_pid(paths, pid, &replies) {
                Ownership::Known(identity) => return identity,
                Ownership::Asks(action) => {
                    let reply = self.perform(action, &|place| paths.artifact(place).to_vec());
                    replies.push(reply);
                }
            }
        }
    }

    fn identity(&self, path: &[u8]) -> ArtifactIdentity {
        ArtifactIdentity::from_facts(self.entries[path].facts)
    }
}

fn server_id() -> ServerId {
    ServerId("a".repeat(64))
}

fn prepared() -> (Disk, DaemonPaths) {
    let mut disk = Disk::new();
    let paths = disk.set_up(b"/tmp", &server_id(), UID).expect("paths");
    (disk, paths)
}

fn metadata_store() -> (Disk, MetadataStore) {
    let (disk, paths) = prepared();
    (disk, MetadataStore::new(paths))
}

fn sample_metadata() -> PidMetadata {
    PidMetadata {
        pid: 4242,
        config_hash: ConfigHash([0xab; 32]),
        started_at: SystemTime {
            seconds: 1_700_000_000,
            nanoseconds: 0,
        },
    }
}

fn members(value: JsonValue) -> JsonObject {
    match value {
        JsonValue::Object(members) => members,
        other => panic!("no object: {other:?}"),
    }
}

fn decode(text: &str) -> Option<PidMetadata> {
    PidMetadata::from_json(text.as_bytes())
}

const STORED_HASH: &str = "abababababababababababababababababababababababababababababababab";

fn reason(fault: PathFault) -> &'static str {
    match fault {
        PathFault::Unsafe { reason, .. } => reason,
        PathFault::Io { operation, .. } => operation,
    }
}

#[test]
fn creates_private_runtime_and_hash_only_artifact_names() {
    let mut disk = Disk::new();
    let id = server_id();
    let paths = disk.set_up(b"/tmp", &id, UID).expect("secure paths");

    assert_eq!(paths.runtime_dir, b"/tmp/mcp-cli-1000");
    assert_eq!(disk.mode(&paths.runtime_dir), 0o700);
    for (path, suffix) in [
        (&paths.socket, SOCKET_SUFFIX),
        (&paths.pid, PID_SUFFIX),
        (&paths.lock, LOCK_SUFFIX),
    ] {
        let expected = format!("/tmp/mcp-cli-1000/{}{suffix}", id.0);
        assert_eq!(path, expected.as_bytes());
    }
}

#[test]
fn reuse_repairs_mode_but_rejects_symlink_non_directory_and_wrong_owner() {
    let id = server_id();

    let mut disk = Disk::new();
    disk.put(b"/tmp/mcp-cli-1000", FileKind::Directory, 0o755, b"");
    let paths = disk.set_up(b"/tmp", &id, UID).expect("reuse");
    assert_eq!(disk.mode(&paths.runtime_dir), 0o700);

    let mut disk = Disk::new();
    disk.put(b"/tmp/target", FileKind::Directory, 0o700, b"");
    disk.link(b"/tmp/mcp-cli-1000", b"/tmp/target");
    assert_eq!(
        reason(disk.set_up(b"/tmp", &id, UID).unwrap_err()),
        "runtime directory must not be a symbolic link"
    );

    let mut disk = Disk::new();
    disk.put(b"/tmp/mcp-cli-1000", FileKind::Regular, 0o600, b"not a directory");
    assert_eq!(
        reason(disk.set_up(b"/tmp", &id, UID).unwrap_err()),
        "runtime path is not a directory"
    );

    let mut disk = Disk::new();
    disk.put(b"/tmp/mcp-cli-1001", FileKind::Directory, 0o700, b"");
    assert_eq!(
        reason(disk.set_up(b"/tmp", &id, UID + 1).unwrap_err()),
        "runtime directory is not owned by the current UID"
    );
}

#[test]
fn invalid_server_id_cannot_escape_runtime_root() {
    for value in ["../escape", "a/b", "A", "0", "\n"] {
        let mut disk = Disk::new();
        let id = ServerId(value.to_owned());
        assert!(!is_valid_server_id(&id));
        assert_eq!(
            disk.set_up(b"/tmp", &id, UID),
            Err(PathFault::Unsafe {
                place: Place::Identifier,
                reason: "server identifier must be a full lowercase SHA-256 digest",
            })
        );
        assert!(disk.trace.is_empty());
        assert_eq!(disk.below(b"/tmp"), 0);
    }
    assert!(is_valid_server_id(&server_id()));
}

#[test]
fn safe_removal_validates_expected_type_and_symlink() {
    let (mut disk, paths) = prepared();

    disk.put(&paths.lock, FileKind::Regular, 0o600, b"lock");
    assert_eq!(disk.drive(&paths, &|r| paths.remove_lock(r)), Ok(true));
    assert_eq!(disk.drive(&paths, &|r| paths.remove_lock(r)), Ok(false));

    disk.put(&paths.socket, FileKind::Socket, 0o755, b"");
    assert_eq!(disk.drive(&paths, &|r| paths.remove_socket(r)), Ok(true));
    assert!(!disk.holds(&paths.socket));

    disk.put(&paths.pid, FileKind::Directory, 0o700, b"");
    assert_eq!(
        reason(disk.drive(&paths, &|r| paths.remove_pid(r)).unwrap_err()),
        "daemon artifact has an unexpected file type"
    );
    disk.entries.remove(&paths.pid);

    disk.put(b"/tmp/outside", FileKind::Regular, 0o600, b"outside");
    disk.link(&paths.pid, b"/tmp/outside");
    assert_eq!(
        reason(disk.drive(&paths, &|r| paths.remove_pid(r)).unwrap_err()),
        "daemon artifact must not be a symbolic link"
    );
    assert_eq!(disk.entries[b"/tmp/outside".as_slice()].bytes, b"outside");
}

#[test]
fn artifact_owner_validation_fails_closed() {
    let facts = FileFacts {
        kind: FileKind::Regular,
        uid: UID,
        mode: 0o600,
        device: 1,
        inode: 2,
        length: 4,
    };
    assert_eq!(
        validate_artifact_metadata(facts, UID + 1, ArtifactKind::RegularFile, true),
        Some("daemon artifact is not owned by the current UID")
    );
    assert_eq!(
        validate_artifact_metadata(facts, UID, ArtifactKind::RegularFile, true),
        None
    );
    assert_eq!(
        validate_artifact_metadata(facts, UID, ArtifactKind::Socket, true),
        Some("daemon artifact has an unexpected file type")
    );
    let open = FileFacts { mode: 0o640, ..facts };
    assert_eq!(
        validate_artifact_metadata(open, UID, ArtifactKind::RegularFile, true),
        Some("daemon artifact permissions are broader than 0600")
    );
    assert_eq!(
        validate_artifact_metadata(open, UID, ArtifactKind::RegularFile, false),
        None
    );
}

#[test]
fn captured_identities_guard_removals() {
    let (mut disk, paths) = prepared();
    assert_eq!(
        disk.drive(&paths, &|r| paths.capture_lock_identity(r)),
        Ok(None)
    );
    disk.put(&paths.lock, FileKind::Regular, 0o600, b"lock");
    let identity = disk
        .drive(&paths, &|r| paths.capture_lock_identity(r))
        .unwrap()
        .unwrap();
    assert_eq!(identity, disk.identity(&paths.lock));

    disk.put(&paths.lock, FileKind::Regular, 0o600, b"replacement");
    assert_eq!(
        reason(
            disk.drive(&paths, &|r| paths.remove_lock_if_owned(identity, r))
                .unwrap_err()
        ),
        "artifact identity no longer belongs to this worker"
    );
    assert!(disk.holds(&paths.lock));

    let current = disk.identity(&paths.lock);
    assert_eq!(
        disk.drive(&paths, &|r| paths.remove_lock_if_owned(current, r)),
        Ok(true)
    );
    assert!(!disk.holds(&paths.lock));
}

#[test]
fn captures_require_private_artifacts() {
    let (mut disk, paths) = prepared();
    disk.put(&paths.socket, FileKind::Socket, 0o755, b"");
    assert_eq!(
        reason(
            disk.drive(&paths, &|r| paths.capture_socket_identity(r))
                .unwrap_err()
        ),
        "daemon artifact permissions are broader than 0600"
    );
    disk.put(&paths.pid, FileKind::Regular, 0o600, b"{}");
    disk.own(&paths.pid, UID + 1);
    assert_eq!(
        reason(
            disk.drive(&paths, &|r| paths.capture_pid_identity(r))
                .unwrap_err()
        ),
        "daemon artifact is not owned by the current UID"
    );
}

#[test]
fn a_replaced_runtime_directory_is_refused() {
    let (mut disk, paths) = prepared();
    assert!(disk.drive(&paths, &|r| paths.validate_runtime_dir(r)).is_ok());
    assert!(disk.drive(&paths, &|r| paths.validate_pid_path(r)).is_ok());

    disk.put(&paths.runtime_dir, FileKind::Directory, 0o700, b"");
    assert_eq!(
        reason(
            disk.drive(&paths, &|r| paths.validate_runtime_dir(r))
                .unwrap_err()
        ),
        "runtime directory was replaced after validation"
    );

    let (mut disk, paths) = prepared();
    disk.entries.get_mut(&paths.runtime_dir).unwrap().facts.mode = 0o750;
    assert_eq!(
        reason(
            disk.drive(&paths, &|r| paths.validate_pid_path(r))
                .unwrap_err()
        ),
        "runtime directory permissions are not exactly 0700"
    );
}

#[test]
fn artifacts_outside_the_runtime_directory_are_refused() {
    let (mut disk, paths) = prepared();
    let mut escaped = paths.clone();
    escaped.lock = b"/tmp/other.lock".to_vec();
    assert_eq!(
        disk.drive(&escaped, &|r| escaped.remove_lock(r)),
        Err(PathFault::Unsafe {
            place: Place::Lock,
            reason: "artifact parent is outside the runtime directory",
        })
    );
    let mut renamed = paths.clone();
    renamed.socket = b"/tmp/mcp-cli-1000/other.sock".to_vec();
    assert_eq!(
        disk.drive(&renamed, &|r| renamed.remove_socket(r)),
        Err(PathFault::Unsafe {
            place: Place::Socket,
            reason: "artifact basename is not the expected hashed server identifier",
        })
    );
}

#[test]
fn set_up_reports_the_failing_step() {
    let id = server_id();
    for (action, operation) in [
        (FileAction::Resolve(Place::TemporaryRoot), "canonicalize"),
        (FileAction::Follow(Place::Parent), "inspect"),
        (FileAction::CreateDirectory(Place::RuntimeDir), "create"),
        (FileAction::SetMode(Place::RuntimeDir, 0o700), "set permissions on"),
    ] {
        let mut disk = Disk::new();
        disk.failing = Some(action);
        assert_eq!(reason(disk.set_up(b"/tmp", &id, UID).unwrap_err()), operation);
    }
    let mut disk = Disk::new();
    disk.put(b"/file", FileKind::Regular, 0o600, b"");
    assert_eq!(
        reason(disk.set_up(b"/file", &id, UID).unwrap_err()),
        "temporary root is not a directory"
    );
}

#[test]
fn set_up_follows_a_linked_temporary_root() {
    let mut disk = Disk::new();
    disk.put(b"/private/tmp", FileKind::Directory, 0o1777, b"");
    disk.link(b"/linked", b"/private/tmp");
    let paths = disk.set_up(b"/linked", &server_id(), UID).unwrap();
    assert_eq!(paths.runtime_dir, b"/private/tmp/mcp-cli-1000");
}

#[test]
fn path_errors_name_the_path_and_the_reason() {
    let unsafe_path = DaemonPathError::at(
        PathFault::Unsafe {
            place: Place::Pid,
            reason: "daemon artifact must not be a symbolic link",
        },
        b"/run/x.pid".to_vec(),
    );
    assert_eq!(
        unsafe_path.display_text(),
        "unsafe daemon path /run/x.pid: daemon artifact must not be a symbolic link"
    );
    let failed = DaemonPathError::at(
        PathFault::Io {
            operation: "inspect",
            place: Place::Pid,
        },
        b"/run/\xff.pid".to_vec(),
    );
    assert_eq!(
        failed.display_text(),
        "could not inspect daemon path /run/\u{fffd}.pid"
    );
}

#[test]
fn an_empty_temporary_root_falls_back() {
    assert_eq!(temporary_root(None), b"/tmp");
    assert_eq!(temporary_root(Some(b"")), b"/tmp");
    assert_eq!(temporary_root(Some(b"/var/tmp")), b"/var/tmp");
}

#[test]
fn atomically_writes_and_reads_private_metadata_with_exact_fields() {
    let (mut disk, store) = metadata_store();
    let expected = sample_metadata();
    disk.write(&store).unwrap();

    assert_eq!(disk.read(&store), Ok(expected));
    let value = parse_json(&disk.entries[&store.paths().pid].bytes).unwrap();
    assert_eq!(value.get("config_hash").unwrap().as_str().unwrap().len(), 64);
    assert_eq!(
        members(value).sorted_names(),
        ["config_hash", "pid", "started_at"]
    );
    assert_eq!(disk.mode(&store.paths().pid), 0o600);
    assert_eq!(disk.entries[&store.paths().pid].facts.uid, UID);
    assert_eq!(disk.below(&store.paths().runtime_dir), 1);
    let publish = disk
        .trace
        .iter()
        .position(|action| *action == FileAction::Publish)
        .unwrap();
    let sync = disk
        .trace
        .iter()
        .position(|action| *action == FileAction::SyncTemporary)
        .unwrap();
    assert!(sync < publish);
}

#[test]
fn rejects_symlink_directory_and_overwide_permissions_without_following_target() {
    let (mut disk, store) = metadata_store();
    disk.put(b"/tmp/outside", FileKind::Regular, 0o600, br#"{"pid":1}"#);
    disk.link(&store.paths().pid.clone(), b"/tmp/outside");
    assert!(disk.read(&store).is_err());
    assert!(disk.write(&store).is_err());
    assert_eq!(
        disk.entries[b"/tmp/outside".as_slice()].bytes,
        br#"{"pid":1}"#
    );

    let (mut disk, store) = metadata_store();
    disk.put(&store.paths().pid.clone(), FileKind::Directory, 0o700, b"");
    assert!(disk.read(&store).is_err());
    assert!(disk.remove(&store).is_err());

    let (mut disk, store) = metadata_store();
    disk.put(&store.paths().pid.clone(), FileKind::Regular, 0o644, b"{}");
    assert!(disk.read(&store).is_err());
    assert!(disk.write(&store).is_err());
}

#[test]
fn rejects_oversized_invalid_and_extra_field_json() {
    let (mut disk, store) = metadata_store();
    disk.put(
        &store.paths().pid.clone(),
        FileKind::Regular,
        0o600,
        &vec![b'x'; PID_METADATA_MAX_BYTES + 1],
    );
    let limit = PID_METADATA_MAX_BYTES;
    assert_eq!(disk.read(&store), Err(MetadataFault::TooLarge { limit }));

    let (mut disk, store) = metadata_store();
    disk.put(&store.paths().pid.clone(), FileKind::Regular, 0o600, b"not json");
    assert_eq!(disk.read(&store), Err(MetadataFault::InvalidJson));

    let (mut disk, store) = metadata_store();
    let mut value = members(parse_json(&sample_metadata().to_json()).unwrap());
    value.insert("secret", JsonValue::text("must-not-be-accepted"));
    let bytes = JsonValue::object(value).to_text();
    disk.put(&store.paths().pid.clone(), FileKind::Regular, 0o600, &bytes);
    assert_eq!(disk.read(&store), Err(MetadataFault::InvalidJson));
}

#[test]
fn metadata_of_exactly_the_limit_is_read() {
    let (mut disk, store) = metadata_store();
    let mut bytes = sample_metadata().to_json();
    bytes.resize(PID_METADATA_MAX_BYTES, b' ');
    disk.put(&store.paths().pid.clone(), FileKind::Regular, 0o600, &bytes);
    assert_eq!(disk.read(&store), Ok(sample_metadata()));
}

#[test]
fn metadata_with_a_repeated_name_is_refused() {
    let (mut disk, store) = metadata_store();
    disk.write(&store).unwrap();
    disk.repeats = true;
    assert_eq!(disk.read(&store), Err(MetadataFault::InvalidJson));
}

#[test]
fn metadata_survives_its_text() {
    for (pid, seconds, nanoseconds) in [
        (0, 0, 0),
        (4242, 1_700_000_000, 123_456_789),
        (u32::MAX, i64::MAX as u64, 999_999_999),
    ] {
        let metadata = PidMetadata {
            pid,
            config_hash: ConfigHash([7; 32]),
            started_at: SystemTime { seconds, nanoseconds },
        };
        assert_eq!(PidMetadata::from_json(&metadata.to_json()), Some(metadata));
    }
    let text = String::from_utf8(sample_metadata().to_json()).unwrap();
    assert!(text.starts_with(&format!(
        "{{\"pid\":4242,\"config_hash\":\"{STORED_HASH}\",\"started_at\":{{"
    )));
    assert!(text.contains("\"secs_since_epoch\":1700000000"));
    assert!(text.contains("\"nanos_since_epoch\":0"));
}

#[test]
fn metadata_text_is_read_field_by_field() {
    let time = r#"{"nanos_since_epoch":0,"secs_since_epoch":1700000000}"#;
    let sample = Some(sample_metadata());
    let object = |pid: &str, hash: &str, time: &str| {
        decode(&format!(
            r#"{{"started_at":{time}, "config_hash":"{hash}", "pid":{pid}}}"#
        ))
    };
    assert_eq!(object("4242", STORED_HASH, time), sample);
    assert_eq!(object("4242", STORED_HASH, "[1700000000,0]"), sample);
    assert_eq!(object("4242", STORED_HASH, "[1699999999,1000000000]"), sample);
    assert_eq!(
        decode(&format!(r#"[4242,"{STORED_HASH}",{time}]"#)),
        sample
    );

    for pid in ["-1", "4242.0", "4294967296", "\"4242\"", "null"] {
        assert_eq!(object(pid, STORED_HASH, time), None);
    }
    for hash in ["", "AB", &STORED_HASH[2..], &STORED_HASH.to_uppercase()] {
        assert_eq!(object("4242", hash, time), None);
    }
    for time in [
        "1700000000",
        "[1700000000]",
        "[1700000000,0,0]",
        "[1700000000,4294967296]",
        "[9223372036854775808,0]",
        r#"{"secs_since_epoch":1700000000}"#,
        r#"{"secs_since_epoch":1,"nanos_since_epoch":0,"zone":0}"#,
    ] {
        assert_eq!(object("4242", STORED_HASH, time), None);
    }
    assert_eq!(decode(&format!(r#"{{"pid":4242,"started_at":{time}}}"#)), None);
    assert_eq!(decode(&format!(r#"[4242,"{STORED_HASH}"]"#)), None);
    assert_eq!(decode("{}"), None);
    assert_eq!(decode("7"), None);
}

#[test]
fn failed_publication_cleans_unpredictable_temporary_file() {
    let (mut disk, store) = metadata_store();
    disk.failing = Some(FileAction::BeforeRename);
    assert_eq!(
        disk.write(&store),
        Err(MetadataFault::Io {
            operation: "prepare atomic rename for",
            place: Place::Temporary,
        })
    );
    assert!(!disk.holds(&store.paths().pid));
    assert_eq!(disk.below(&store.paths().runtime_dir), 0);
}

#[test]
fn every_failing_write_step_leaves_no_temporary_file() {
    for action in [
        FileAction::SetMode(Place::Temporary, 0o600),
        FileAction::WriteTemporary,
        FileAction::FlushTemporary,
        FileAction::SyncTemporary,
        FileAction::InspectOpened(Place::Temporary),
        FileAction::Publish,
    ] {
        let (mut disk, store) = metadata_store();
        disk.failing = Some(action);
        assert!(disk.write(&store).is_err());
        assert!(!disk.holds(&store.paths().pid));
        assert_eq!(disk.below(&store.paths().runtime_dir), 0);
    }
}

#[test]
fn a_taken_temporary_name_is_not_reused() {
    let (mut disk, store) = metadata_store();
    let taken = store.temporary_path(&[1; 16]).unwrap();
    assert!(taken.ends_with(b".tmp-01010101010101010101010101010101"));
    disk.put(&taken, FileKind::Regular, 0o600, b"foreign");
    disk.write(&store).unwrap();
    assert_eq!(disk.entries[&taken].bytes, b"foreign");
    assert_eq!(disk.nonces, 2);

    let (mut disk, store) = metadata_store();
    disk.failing = Some(FileAction::DrawNonce);
    assert_eq!(
        disk.write(&store),
        Err(MetadataFault::Io {
            operation: "read randomness from",
            place: Place::Randomness,
        })
    );
}

#[test]
fn exhausted_temporary_names_are_an_error() {
    let (mut disk, store) = metadata_store();
    for nonce in 1..=32 {
        let taken = store.temporary_path(&[nonce; 16]).unwrap();
        disk.put(&taken, FileKind::Regular, 0o600, b"foreign");
    }
    assert_eq!(
        disk.write(&store),
        Err(MetadataFault::Io {
            operation: "create unique temporary",
            place: Place::Pid,
        })
    );
}

#[test]
fn safe_remove_rejects_symlink_and_removes_only_valid_metadata() {
    let (mut disk, store) = metadata_store();
    disk.write(&store).unwrap();
    assert_eq!(disk.remove(&store), Ok(true));
    assert_eq!(disk.remove(&store), Ok(false));

    let (mut disk, store) = metadata_store();
    disk.put(b"/tmp/outside", FileKind::Regular, 0o600, b"outside");
    disk.link(&store.paths().pid.clone(), b"/tmp/outside");
    assert!(disk.remove(&store).is_err());
    assert_eq!(disk.entries[b"/tmp/outside".as_slice()].bytes, b"outside");
}

#[test]
fn broad_metadata_is_refused_and_kept() {
    let (mut disk, store) = metadata_store();
    let pid = store.paths().pid.clone();
    disk.put(&pid, FileKind::Regular, 0o644, b"{}");
    assert_eq!(
        disk.remove(&store),
        Err(MetadataFault::Path(PathFault::Unsafe {
            place: Place::Pid,
            reason: "daemon artifact permissions are broader than 0600",
        }))
    );
    assert_eq!(disk.entries[&pid].bytes, b"{}");
    disk.put(&pid, FileKind::Regular, 0o600, b"{}");
    assert_eq!(disk.remove(&store), Ok(true));
    assert!(!disk.holds(&pid));
}

#[test]
fn what_was_written_is_read() {
    let (mut disk, store) = metadata_store();
    for pid in [17, 18] {
        disk.metadata.pid = pid;
        disk.write(&store).unwrap();
        assert_eq!(disk.read(&store), Ok(disk.metadata));
    }
    assert_eq!(disk.mode(&store.paths().pid), 0o600);
}

#[test]
fn metadata_errors_name_the_path() {
    let path = b"/run/x.pid".to_vec();
    let error = MetadataError::at(
        MetadataFault::Io {
            operation: "open",
            place: Place::Pid,
        },
        path.clone(),
    );
    assert_eq!(error.display_text(), "could not open PID metadata /run/x.pid");
    let error = MetadataError::at(MetadataFault::TooLarge { limit: 16_384 }, path.clone());
    assert_eq!(error.display_text(), "PID metadata exceeds 16384 bytes");
    let error = MetadataError::at(MetadataFault::InvalidJson, path.clone());
    assert_eq!(error.display_text(), "PID metadata is not valid JSON");
    let error = MetadataError::at(
        MetadataFault::Path(PathFault::Unsafe {
            place: Place::Pid,
            reason: "PID metadata was replaced during validation",
        }),
        path,
    );
    assert_eq!(
        error.display_text(),
        "unsafe daemon path /run/x.pid: PID metadata was replaced during validation"
    );
}

#[test]
fn only_one_worker_takes_the_lock() {
    let (mut disk, paths) = prepared();
    let identity = disk.start(&paths, &|r| acquire_lock(&paths, r)).unwrap();
    assert_eq!(identity, disk.identity(&paths.lock));
    assert_eq!(disk.mode(&paths.lock), 0o600);
    assert_eq!(
        disk.start(&paths, &|r| acquire_lock(&paths, r)),
        Err(WorkerBootstrapError::LockHeld)
    );
    assert_eq!(disk.identity(&paths.lock), identity);
}

#[test]
fn a_lock_that_cannot_be_filled_is_removed() {
    let (mut disk, paths) = prepared();
    disk.failing = Some(FileAction::FillLock);
    assert_eq!(
        disk.start(&paths, &|r| acquire_lock(&paths, r)),
        Err(WorkerBootstrapError::UnsafeRuntime)
    );
    assert!(!disk.holds(&paths.lock));
    assert_eq!(disk.trace.last(), Some(&FileAction::Remove(Place::Lock)));
}

#[test]
fn sockets_are_bound_privately_and_only_where_nothing_is() {
    let (mut disk, paths) = prepared();
    assert_eq!(disk.start(&paths, &|r| bind_worker_socket(&paths, r)), Ok(()));
    assert_eq!(disk.mode(&paths.socket), 0o600);
    assert_eq!(
        disk.start(&paths, &|r| bind_worker_socket(&paths, r)),
        Err(WorkerBootstrapError::SocketPublication)
    );

    let (mut disk, paths) = prepared();
    disk.failing = Some(FileAction::BindSocket);
    assert_eq!(
        disk.start(&paths, &|r| bind_worker_socket(&paths, r)),
        Err(WorkerBootstrapError::SocketPublication)
    );

    let (mut disk, paths) = prepared();
    disk.entries.get_mut(&paths.runtime_dir).unwrap().facts.mode = 0o755;
    assert_eq!(
        disk.start(&paths, &|r| bind_worker_socket(&paths, r)),
        Err(WorkerBootstrapError::UnsafeRuntime)
    );
}

#[test]
fn a_lock_belongs_only_to_the_process_that_it_names() {
    let (mut disk, paths) = prepared();
    assert_eq!(disk.owner(&paths, 4242), None);
    let identity = disk.start(&paths, &|r| acquire_lock(&paths, r)).unwrap();
    assert_eq!(disk.owner(&paths, 4242), Some(identity));
    assert_eq!(disk.owner(&paths, 424), None);
    assert_eq!(disk.owner(&paths, 42_421), None);
    disk.entries.get_mut(&paths.lock).unwrap().facts.mode = 0o644;
    assert_eq!(disk.owner(&paths, 4242), None);
}

#[test]
fn leftovers_are_removed_only_under_the_own_lock() {
    let lock = ArtifactIdentity { device: 1, inode: 1 };
    let socket = ArtifactIdentity { device: 1, inode: 2 };
    let pid = ArtifactIdentity { device: 1, inode: 3 };
    assert!(failed_child_leftovers(9, None, Some(socket), Some(9), Some(pid)).is_empty());
    assert_eq!(
        failed_child_leftovers(9, Some(lock), Some(socket), Some(9), Some(pid)),
        vec![(Place::Socket, socket), (Place::Pid, pid), (Place::Lock, lock)]
    );
    assert_eq!(
        failed_child_leftovers(9, Some(lock), None, Some(8), Some(pid)),
        vec![(Place::Lock, lock)]
    );
}

#[test]
fn shutdown_never_removes_replaced_or_symlinked_artifacts() {
    let (mut disk, paths) = prepared();
    disk.put(&paths.socket, FileKind::Socket, 0o600, b"");
    disk.put(&paths.pid, FileKind::Regular, 0o600, b"owned");
    disk.put(&paths.lock, FileKind::Regular, 0o600, b"owned");
    let socket = disk
        .drive(&paths, &|r| paths.capture_socket_identity(r))
        .unwrap()
        .unwrap();
    let pid = disk
        .drive(&paths, &|r| paths.capture_pid_identity(r))
        .unwrap()
        .unwrap();
    let lock = disk
        .drive(&paths, &|r| paths.capture_lock_identity(r))
        .unwrap()
        .unwrap();

    disk.put(&paths.pid, FileKind::Regular, 0o600, b"replacement");
    disk.put(b"/tmp/outside", FileKind::Regular, 0o600, b"outside");
    disk.entries.remove(&paths.socket);
    disk.link(&paths.socket, b"/tmp/outside");

    assert!(disk
        .drive(&paths, &|r| paths.remove_socket_if_owned(socket, r))
        .is_err());
    assert!(disk
        .drive(&paths, &|r| paths.remove_pid_if_owned(pid, r))
        .is_err());
    assert_eq!(
        disk.drive(&paths, &|r| paths.remove_lock_if_owned(lock, r)),
        Ok(true)
    );
    assert!(disk.holds(&paths.socket));
    assert_eq!(disk.entries[b"/tmp/outside".as_slice()].bytes, b"outside");
    assert_eq!(disk.entries[&paths.pid].bytes, b"replacement");
    assert!(!disk.holds(&paths.lock));
}

#[test]
fn bootstrap_envelope_round_trips_only_through_serialized_input() {
    let (mut disk, paths) = prepared();
    let server = ServerDefinition {
        name: "bootstrap-fixture".to_owned(),
        id: server_id(),
        config_hash: ConfigHash([0x3c; 32]),
        transport: TransportConfig::Stdio {
            command: "/definitely/not/executed".to_owned(),
            args: Vec::new(),
            env: vec![("TOKEN".to_owned(), "bootstrap-secret".to_owned())],
            cwd: None,
        },
        filter: ToolFilterConfig::default(),
    };
    let parent_environment =
        vec![("PARENT_SECRET".to_owned(), "parent-secret-value".to_owned())];
    let envelope = WorkerBootstrapEnvelope::new(
        &server,
        &paths,
        &parent_environment,
        Duration::from_secs(30),
        Duration::from_secs(5),
    )
    .expect("envelope");
    let encoded = envelope.to_json().expect("serialize");
    let decoded = WorkerBootstrapEnvelope::from_json(&encoded, true).expect("deserialize");
    let validated = decoded.validate(&server_id().0).expect("validate");

    assert_eq!(validated.server, server);
    assert_eq!(validated.parent_environment, parent_environment);
    let runtime = disk
        .set_up(&validated.runtime_parent, &validated.server.id, UID)
        .expect("runtime");
    assert_eq!(runtime.socket, paths.socket);
    assert_eq!(validated.idle_timeout, Duration::from_secs(30));
    assert_eq!(validated.startup_timeout, Duration::from_secs(5));
    assert!(String::from_utf8(encoded).unwrap().contains("bootstrap-secret"));
    assert!(!WorkerBootstrapError::InvalidInput
        .display_text()
        .contains("secret"));
}
