//! Secure Unix daemon runtime paths.

use vstd::prelude::*;

use crate::config::{ServerId, SHA256_HEX_LENGTH};
use crate::daemon::files;
use crate::daemon::files::{
    perform, same_file, show, show_if_present, ArtifactIdentity, FileAction, FileFacts, FileKind,
    FileReply, Flow, PathFault, Place,
};
use crate::policy::redact;
use crate::text;
use crate::text::{bytes_equal, decimal_text, is_utf8};
use crate::unix_path;
use crate::unix_path::{file_name_of, join_path, same_path, stands_in};

verus! {

pub const RUNTIME_DIRECTORY_PREFIX: &'static str = "mcp-cli-";

pub const SOCKET_SUFFIX: &'static str = ".sock";

pub const PID_SUFFIX: &'static str = ".pid";

pub const LOCK_SUFFIX: &'static str = ".lock";

pub const PRIVATE_DIRECTORY_MODE: u32 = 0o700;

pub const PRIVATE_FILE_MODE: u32 = 0o600;

/// The bits of a mode that are permissions.
pub const PERMISSION_BITS: u32 = 0o7777;

/// The permissions of anyone but the owner.
pub const FOREIGN_BITS: u32 = 0o077;

/// Filesystem type expected when validating or removing a daemon artifact.
#[derive(Clone, Copy, Debug, PartialEq, Eq, Structural)]
pub enum ArtifactKind {
    RegularFile,
    Socket,
}

/// A fail-closed error raised by daemon path or metadata validation. The cause
/// of an I/O failure stays with the caller.
#[derive(Clone, Debug, PartialEq, Eq)]
pub enum DaemonPathError {
    Unsafe { path: Vec<u8>, reason: &'static str },
    Io { operation: &'static str, path: Vec<u8> },
}

impl DaemonPathError {
    /// Names the path at which a check failed.
    pub fn at(fault: PathFault, path: Vec<u8>) -> (r: Self)
        ensures
            r == (match fault {
                PathFault::Unsafe { place, reason } => DaemonPathError::Unsafe { path, reason },
                PathFault::Io { operation, place } => DaemonPathError::Io { operation, path },
            }),
    {
        match fault {
            PathFault::Unsafe { place: _, reason } => DaemonPathError::Unsafe { path, reason },
            PathFault::Io { operation, place: _ } => DaemonPathError::Io { operation, path },
        }
    }

    pub fn display_text(&self) -> (r: String)
        ensures
            r@ == (match *self {
                DaemonPathError::Unsafe { path, reason } => "unsafe daemon path "@
                    + redact::lossy_text(path@) + ": "@ + reason@,
                DaemonPathError::Io { operation, path } => "could not "@ + operation@
                    + " daemon path "@ + redact::lossy_text(path@),
            }),
    {
        match self {
            DaemonPathError::Unsafe { path, reason } => {
                let mut shown = "unsafe daemon path ".to_owned();
                shown.append(redact::lossy(path.as_slice()).as_str());
                shown.append(": ");
                shown.append(reason);
                shown
            },
            DaemonPathError::Io { operation, path } => {
                let mut shown = "could not ".to_owned();
                shown.append(operation);
                shown.append(" daemon path ");
                shown.append(redact::lossy(path.as_slice()).as_str());
                shown
            },
        }
    }
}

/// Validated per-user daemon paths for one hashed server identifier.
#[derive(Clone, Debug, PartialEq, Eq)]
pub struct DaemonPaths {
    pub runtime_dir: Vec<u8>,
    pub socket: Vec<u8>,
    pub pid: Vec<u8>,
    pub lock: Vec<u8>,
    pub uid: u32,
    pub runtime_identity: ArtifactIdentity,
}

/// The content of a set of daemon paths.
#[verifier::ext_equal]
pub struct PathsContent {
    pub runtime_dir: Seq<u8>,
    pub socket: Seq<u8>,
    pub pid: Seq<u8>,
    pub lock: Seq<u8>,
    pub uid: u32,
    pub runtime_identity: ArtifactIdentity,
}

impl View for DaemonPaths {
    type V = PathsContent;

    open spec fn view(&self) -> PathsContent {
        PathsContent {
            runtime_dir: self.runtime_dir@,
            socket: self.socket@,
            pid: self.pid@,
            lock: self.lock@,
            uid: self.uid,
            runtime_identity: self.runtime_identity,
        }
    }
}

/// The UTF-8 bytes of a text.
pub open spec fn utf8(source: Seq<char>) -> Seq<u8> {
    vstd::utf8::encode_utf8(source)
}

pub open spec fn suffix_of(place: Place) -> Seq<u8> {
    match place {
        Place::Socket => utf8(SOCKET_SUFFIX@),
        Place::Pid => utf8(PID_SUFFIX@),
        _ => utf8(LOCK_SUFFIX@),
    }
}

fn suffix_bytes(place: Place) -> (r: Vec<u8>)
    ensures
        r@ == suffix_of(place),
{
    match place {
        Place::Socket => vstd::slice::slice_to_vec(SOCKET_SUFFIX.as_bytes()),
        Place::Pid => vstd::slice::slice_to_vec(PID_SUFFIX.as_bytes()),
        _ => vstd::slice::slice_to_vec(LOCK_SUFFIX.as_bytes()),
    }
}

/// The artifact path that a place stands for.
pub open spec fn artifact_path(paths: PathsContent, place: Place) -> Seq<u8> {
    match place {
        Place::Socket => paths.socket,
        Place::Pid => paths.pid,
        Place::Lock => paths.lock,
        _ => paths.runtime_dir,
    }
}

pub open spec fn kind_of(place: Place) -> ArtifactKind {
    match place {
        Place::Socket => ArtifactKind::Socket,
        _ => ArtifactKind::RegularFile,
    }
}

pub open spec fn is_artifact(place: Place) -> bool {
    place == Place::Socket || place == Place::Pid || place == Place::Lock
}

/// A full lower-case hexadecimal digest.
pub open spec fn valid_server_id(id: Seq<char>) -> bool {
    let source = utf8(id);
    source.len() == SHA256_HEX_LENGTH && forall|i: int|
        0 <= i < source.len() ==> crate::config::hex_value(#[trigger] source[i]) is Some
}

pub fn is_valid_server_id(id: &ServerId) -> (r: bool)
    ensures
        r == valid_server_id(id.0@),
{
    let source = id.0.as_str().as_bytes();
    if source.len() != SHA256_HEX_LENGTH {
        return false;
    }
    let mut index: usize = 0;
    while index < source.len()
        invariant
            index <= source.len(),
            source@ == utf8(id.0@),
            forall|i: int|
                0 <= i < index ==> crate::config::hex_value(#[trigger] source@[i]) is Some,
        decreases source.len() - index,
    {
        let byte = source[index];
        if !((48 <= byte && byte <= 57) || (97 <= byte && byte <= 102)) {
            assert(crate::config::hex_value(source@[index as int]) is None);
            return false;
        }
        index += 1;
    }
    true
}

/// Why an entry cannot be the runtime directory.
pub open spec fn runtime_entry_flaw(facts: FileFacts, uid: u32) -> Option<&'static str> {
    if facts.kind == FileKind::Symlink {
        Some("runtime directory must not be a symbolic link")
    } else if facts.kind != FileKind::Directory {
        Some("runtime path is not a directory")
    } else if facts.uid != uid {
        Some("runtime directory is not owned by the current UID")
    } else {
        None
    }
}

pub fn validate_runtime_entry(facts: FileFacts, uid: u32) -> (r: Option<&'static str>)
    ensures
        r == runtime_entry_flaw(facts, uid),
{
    if facts.kind == FileKind::Symlink {
        Some("runtime directory must not be a symbolic link")
    } else if facts.kind != FileKind::Directory {
        Some("runtime path is not a directory")
    } else if facts.uid != uid {
        Some("runtime directory is not owned by the current UID")
    } else {
        None
    }
}

/// Why an entry is not the private runtime directory that is expected.
pub open spec fn runtime_dir_flaw(
    facts: FileFacts,
    uid: u32,
    expected: Option<ArtifactIdentity>,
) -> Option<&'static str> {
    if runtime_entry_flaw(facts, uid) is Some {
        runtime_entry_flaw(facts, uid)
    } else if facts.mode & PERMISSION_BITS != PRIVATE_DIRECTORY_MODE {
        Some("runtime directory permissions are not exactly 0700")
    } else if expected is Some && expected->0 != files::identity_of(facts) {
        Some("runtime directory was replaced after validation")
    } else {
        None
    }
}

fn find_runtime_dir_flaw(
    facts: FileFacts,
    uid: u32,
    expected: Option<ArtifactIdentity>,
) -> (r: Option<&'static str>)
    ensures
        r == runtime_dir_flaw(facts, uid, expected),
{
    if let Some(reason) = validate_runtime_entry(facts, uid) {
        return Some(reason);
    }
    if facts.mode & PERMISSION_BITS != PRIVATE_DIRECTORY_MODE {
        return Some("runtime directory permissions are not exactly 0700");
    }
    if let Some(identity) = expected {
        if !identity.matches(facts) {
            return Some("runtime directory was replaced after validation");
        }
    }
    None
}

/// Why an entry is not an artifact of the expected kind.
pub open spec fn artifact_flaw(
    facts: FileFacts,
    uid: u32,
    kind: ArtifactKind,
    require_private_mode: bool,
) -> Option<&'static str> {
    if facts.kind == FileKind::Symlink {
        Some("daemon artifact must not be a symbolic link")
    } else if facts.kind != (match kind {
        ArtifactKind::RegularFile => FileKind::Regular,
        ArtifactKind::Socket => FileKind::Socket,
    }) {
        Some("daemon artifact has an unexpected file type")
    } else if facts.uid != uid {
        Some("daemon artifact is not owned by the current UID")
    } else if require_private_mode && facts.mode & FOREIGN_BITS != 0 {
        Some("daemon artifact permissions are broader than 0600")
    } else {
        None
    }
}

pub fn validate_artifact_metadata(
    facts: FileFacts,
    uid: u32,
    kind: ArtifactKind,
    require_private_mode: bool,
) -> (r: Option<&'static str>)
    ensures
        r == artifact_flaw(facts, uid, kind, require_private_mode),
{
    if facts.kind == FileKind::Symlink {
        return Some("daemon artifact must not be a symbolic link");
    }
    let type_matches = match kind {
        ArtifactKind::RegularFile => facts.kind == FileKind::Regular,
        ArtifactKind::Socket => facts.kind == FileKind::Socket,
    };
    if !type_matches {
        return Some("daemon artifact has an unexpected file type");
    }
    if facts.uid != uid {
        return Some("daemon artifact is not owned by the current UID");
    }
    if require_private_mode && facts.mode & FOREIGN_BITS != 0 {
        return Some("daemon artifact permissions are broader than 0600");
    }
    None
}

/// Resolves the runtime directory, which must come out as it is written.
pub open spec fn resolved(
    paths: PathsContent,
    replies: Seq<FileReply>,
    at: int,
    place: Place,
    reason: &'static str,
) -> Flow<()> {
    if at >= replies.len() {
        Flow::Asks(FileAction::Resolve(Place::RuntimeDir))
    } else {
        match replies[at] {
            FileReply::Path(path) => if unix_path::outline(path@) == unix_path::outline(
                paths.runtime_dir,
            ) {
                Flow::Gives(())
            } else {
                Flow::Fails(PathFault::Unsafe { place, reason })
            },
            _ => Flow::Fails(PathFault::Io { operation: "canonicalize", place }),
        }
    }
}

fn resolve(
    paths: &DaemonPaths,
    replies: &[FileReply],
    at: usize,
    place: Place,
    reason: &'static str,
) -> (r: Flow<()>)
    ensures
        r == resolved(paths@, replies@, at as int, place, reason),
{
    if at >= replies.len() {
        return Flow::Asks(FileAction::Resolve(Place::RuntimeDir));
    }
    match &replies[at] {
        FileReply::Path(path) => {
            if same_path(path.as_slice(), paths.runtime_dir.as_slice()) {
                Flow::Gives(())
            } else {
                Flow::Fails(PathFault::Unsafe { place, reason })
            }
        },
        _ => Flow::Fails(PathFault::Io { operation: "canonicalize", place }),
    }
}

/// The number of answers that [`runtime_dir_checked`] needs to pass.
pub const RUNTIME_DIR_ANSWERS: usize = 2;

/// Checks the runtime directory, including its original device/inode identity
/// where one is expected, its ownership, mode, and canonical path.
pub open spec fn runtime_dir_checked(
    paths: PathsContent,
    expected: Option<ArtifactIdentity>,
    replies: Seq<FileReply>,
    at: int,
) -> Flow<FileFacts> {
    let place = Place::RuntimeDir;
    match files::shown(replies, at, FileAction::Inspect(place), "inspect", place) {
        Flow::Asks(action) => Flow::Asks(action),
        Flow::Fails(fault) => Flow::Fails(fault),
        Flow::Gives(facts) => match runtime_dir_flaw(facts, paths.uid, expected) {
            Some(reason) => Flow::Fails(PathFault::Unsafe { place, reason }),
            None => match resolved(
                paths,
                replies,
                at + 1,
                place,
                "runtime directory is not canonical",
            ) {
                Flow::Asks(action) => Flow::Asks(action),
                Flow::Fails(fault) => Flow::Fails(fault),
                Flow::Gives(()) => Flow::Gives(facts),
            },
        },
    }
}

pub fn check_runtime_dir(
    paths: &DaemonPaths,
    expected: Option<ArtifactIdentity>,
    replies: &[FileReply],
    at: usize,
) -> (r: Flow<FileFacts>)
    requires
        at < usize::MAX,
    ensures
        r == runtime_dir_checked(paths@, expected, replies@, at as int),
{
    let place = Place::RuntimeDir;
    match show(replies, at, FileAction::Inspect(place), "inspect", place) {
        Flow::Asks(action) => Flow::Asks(action),
        Flow::Fails(fault) => Flow::Fails(fault),
        Flow::Gives(facts) => match find_runtime_dir_flaw(facts, paths.uid, expected) {
            Some(reason) => Flow::Fails(PathFault::Unsafe { place, reason }),
            None => match resolve(
                paths,
                replies,
                at + 1,
                place,
                "runtime directory is not canonical",
            ) {
                Flow::Asks(action) => Flow::Asks(action),
                Flow::Fails(fault) => Flow::Fails(fault),
                Flow::Gives(()) => Flow::Gives(facts),
            },
        },
    }
}

/// Whether a byte string ends with another, and what stands before it.
pub open spec fn stem(name: Seq<u8>, suffix: Seq<u8>) -> Option<Seq<u8>> {
    if name.len() >= suffix.len() && name.skip(name.len() - suffix.len()) == suffix {
        Some(name.take(name.len() - suffix.len()))
    } else {
        None
    }
}

fn strip_suffix(name: &[u8], suffix: &[u8]) -> (r: Option<Vec<u8>>)
    ensures
        match stem(name@, suffix@) {
            Some(rest) => r matches Some(found) && found@ == rest,
            None => r is None,
        },
{
    if name.len() < suffix.len() {
        return None;
    }
    let cut = name.len() - suffix.len();
    let end = vstd::slice::slice_subrange(name, cut, name.len());
    assert(end@ =~= name@.skip(cut as int));
    if bytes_equal(end, suffix) {
        let start = vstd::slice::slice_subrange(name, 0, cut);
        assert(start@ =~= name@.take(cut as int));
        Some(vstd::slice::slice_to_vec(start))
    } else {
        None
    }
}

/// Why an artifact path is not the expected name in the runtime directory. The
/// expected identifier is the one that the PID path carries.
pub open spec fn child_fault(paths: PathsContent, place: Place) -> Option<PathFault> {
    let path = artifact_path(paths, place);
    if unix_path::parent_outline(unix_path::outline(path)) != Some(
        unix_path::outline(paths.runtime_dir),
    ) {
        Some(
            PathFault::Unsafe { place, reason: "artifact parent is outside the runtime directory" },
        )
    } else {
        match unix_path::file_name(paths.pid) {
            None => Some(
                PathFault::Unsafe { place: Place::Pid, reason: "PID basename is not valid UTF-8" },
            ),
            Some(name) => if !vstd::utf8::valid_utf8(name) {
                Some(
                    PathFault::Unsafe {
                        place: Place::Pid,
                        reason: "PID basename is not valid UTF-8",
                    },
                )
            } else {
                match stem(name, utf8(PID_SUFFIX@)) {
                    None => Some(
                        PathFault::Unsafe {
                            place: Place::Pid,
                            reason: "PID basename has an invalid suffix",
                        },
                    ),
                    Some(id) => if unix_path::file_name(path) != Some(id + suffix_of(place)) {
                        Some(
                            PathFault::Unsafe {
                                place,
                                reason:
                                    "artifact basename is not the expected hashed server identifier",
                            },
                        )
                    } else {
                        None
                    },
                }
            },
        }
    }
}

fn find_child_fault(paths: &DaemonPaths, place: Place) -> (r: Option<PathFault>)
    requires
        is_artifact(place),
    ensures
        r == child_fault(paths@, place),
{
    let path = paths.artifact(place);
    if !stands_in(path, paths.runtime_dir.as_slice()) {
        return Some(
            PathFault::Unsafe { place, reason: "artifact parent is outside the runtime directory" },
        );
    }
    let name = match file_name_of(paths.pid.as_slice()) {
        Some(name) => name,
        None => {
            return Some(
                PathFault::Unsafe { place: Place::Pid, reason: "PID basename is not valid UTF-8" },
            );
        },
    };
    if !is_utf8(name.as_slice()) {
        return Some(
            PathFault::Unsafe { place: Place::Pid, reason: "PID basename is not valid UTF-8" },
        );
    }
    let mut expected = match strip_suffix(name.as_slice(), PID_SUFFIX.as_bytes()) {
        Some(id) => id,
        None => {
            return Some(
                PathFault::Unsafe {
                    place: Place::Pid,
                    reason: "PID basename has an invalid suffix",
                },
            );
        },
    };
    let mut suffix = suffix_bytes(place);
    expected.append(&mut suffix);
    let matching = match file_name_of(path) {
        Some(found) => bytes_equal(found.as_slice(), expected.as_slice()),
        None => false,
    };
    if matching {
        None
    } else {
        Some(
            PathFault::Unsafe {
                place,
                reason: "artifact basename is not the expected hashed server identifier",
            },
        )
    }
}

/// The number of answers that [`child_checked`] needs to pass.
pub const CHILD_ANSWERS: usize = 3;

/// Checks that an artifact stands in the unchanged runtime directory.
pub open spec fn child_checked(
    paths: PathsContent,
    place: Place,
    replies: Seq<FileReply>,
    at: int,
) -> Flow<()> {
    match child_fault(paths, place) {
        Some(fault) => Flow::Fails(fault),
        None => match runtime_dir_checked(paths, Some(paths.runtime_identity), replies, at) {
            Flow::Asks(action) => Flow::Asks(action),
            Flow::Fails(fault) => Flow::Fails(fault),
            Flow::Gives(_) => resolved(
                paths,
                replies,
                at + RUNTIME_DIR_ANSWERS,
                place,
                "artifact canonical parent escaped the runtime directory",
            ),
        },
    }
}

pub fn check_child(
    paths: &DaemonPaths,
    place: Place,
    replies: &[FileReply],
    at: usize,
) -> (r: Flow<()>)
    requires
        is_artifact(place),
        at + CHILD_ANSWERS <= usize::MAX,
    ensures
        r == child_checked(paths@, place, replies@, at as int),
{
    if let Some(fault) = find_child_fault(paths, place) {
        return Flow::Fails(fault);
    }
    match check_runtime_dir(paths, Some(paths.runtime_identity), replies, at) {
        Flow::Asks(action) => Flow::Asks(action),
        Flow::Fails(fault) => Flow::Fails(fault),
        Flow::Gives(_) => resolve(
            paths,
            replies,
            at + RUNTIME_DIR_ANSWERS,
            place,
            "artifact canonical parent escaped the runtime directory",
        ),
    }
}

/// Captures the identity of a published artifact. A missing artifact is not
/// owned by this worker and must not be removed if it appears later.
pub open spec fn captured(paths: PathsContent, place: Place, replies: Seq<FileReply>) -> Flow<
    Option<ArtifactIdentity>,
> {
    match child_checked(paths, place, replies, 0) {
        Flow::Asks(action) => Flow::Asks(action),
        Flow::Fails(fault) => Flow::Fails(fault),
        Flow::Gives(()) => match files::shown_if_present(
            replies,
            CHILD_ANSWERS as int,
            place,
            "inspect",
        ) {
            Flow::Asks(action) => Flow::Asks(action),
            Flow::Fails(fault) => Flow::Fails(fault),
            Flow::Gives(None) => Flow::Gives(None),
            Flow::Gives(Some(facts)) => match artifact_flaw(
                facts,
                paths.uid,
                kind_of(place),
                true,
            ) {
                Some(reason) => Flow::Fails(PathFault::Unsafe { place, reason }),
                None => Flow::Gives(Some(files::identity_of(facts))),
            },
        },
    }
}

/// Why an entry must not be removed.
pub open spec fn removal_flaw(
    paths: PathsContent,
    place: Place,
    expected: Option<ArtifactIdentity>,
    private: bool,
    facts: FileFacts,
) -> Option<&'static str> {
    if artifact_flaw(facts, paths.uid, kind_of(place), private) is Some {
        artifact_flaw(facts, paths.uid, kind_of(place), private)
    } else if expected is Some && expected->0 != files::identity_of(facts) {
        Some("artifact identity no longer belongs to this worker")
    } else {
        None
    }
}

/// Removes an artifact after two inspections that agree; both have to show a
/// private mode where `private` asks for one. A missing artifact is a successful
/// no-op.
pub open spec fn removed(
    paths: PathsContent,
    place: Place,
    expected: Option<ArtifactIdentity>,
    private: bool,
    replies: Seq<FileReply>,
) -> Flow<bool> {
    let first_at = CHILD_ANSWERS as int;
    match child_checked(paths, place, replies, 0) {
        Flow::Asks(action) => Flow::Asks(action),
        Flow::Fails(fault) => Flow::Fails(fault),
        Flow::Gives(()) => match files::shown_if_present(replies, first_at, place, "inspect") {
            Flow::Asks(action) => Flow::Asks(action),
            Flow::Fails(fault) => Flow::Fails(fault),
            Flow::Gives(None) => Flow::Gives(false),
            Flow::Gives(Some(first)) => match removal_flaw(paths, place, expected, private, first) {
                Some(reason) => Flow::Fails(PathFault::Unsafe { place, reason }),
                None => removed_after(paths, place, expected, private, first, replies, first_at + 1),
            },
        },
    }
}

/// The second half of a removal, once the first inspection was in order.
pub open spec fn removed_after(
    paths: PathsContent,
    place: Place,
    expected: Option<ArtifactIdentity>,
    private: bool,
    first: FileFacts,
    replies: Seq<FileReply>,
    at: int,
) -> Flow<bool> {
    let second_at = at + RUNTIME_DIR_ANSWERS;
    match runtime_dir_checked(paths, Some(paths.runtime_identity), replies, at) {
        Flow::Asks(action) => Flow::Asks(action),
        Flow::Fails(fault) => Flow::Fails(fault),
        Flow::Gives(_) => match files::shown(
            replies,
            second_at,
            FileAction::Inspect(place),
            "reinspect",
            place,
        ) {
            Flow::Asks(action) => Flow::Asks(action),
            Flow::Fails(fault) => Flow::Fails(fault),
            Flow::Gives(second) => if artifact_flaw(
                second,
                paths.uid,
                kind_of(place),
                private,
            ) is Some {
                Flow::Fails(
                    PathFault::Unsafe {
                        place,
                        reason: artifact_flaw(second, paths.uid, kind_of(place), private)->0,
                    },
                )
            } else if files::identity_of(first) != files::identity_of(second) {
                Flow::Fails(
                    PathFault::Unsafe { place, reason: "artifact was replaced during validation" },
                )
            } else {
                match removal_flaw(paths, place, expected, private, second) {
                    Some(reason) => Flow::Fails(PathFault::Unsafe { place, reason }),
                    None => match files::performed(
                        replies,
                        second_at + 1,
                        FileAction::Remove(place),
                        "remove",
                        place,
                    ) {
                        Flow::Asks(action) => Flow::Asks(action),
                        Flow::Fails(fault) => Flow::Fails(fault),
                        Flow::Gives(()) => Flow::Gives(true),
                    },
                }
            },
        },
    }
}

fn find_removal_flaw(
    paths: &DaemonPaths,
    place: Place,
    expected: Option<ArtifactIdentity>,
    private: bool,
    facts: FileFacts,
) -> (r: Option<&'static str>)
    ensures
        r == removal_flaw(paths@, place, expected, private, facts),
{
    if let Some(reason) = validate_artifact_metadata(facts, paths.uid, artifact_kind(place), private) {
        return Some(reason);
    }
    if let Some(identity) = expected {
        if !identity.matches(facts) {
            return Some("artifact identity no longer belongs to this worker");
        }
    }
    None
}

fn remove_after(
    paths: &DaemonPaths,
    place: Place,
    expected: Option<ArtifactIdentity>,
    private: bool,
    first: FileFacts,
    replies: &[FileReply],
    at: usize,
) -> (r: Flow<bool>)
    requires
        at + RUNTIME_DIR_ANSWERS + 1 <= usize::MAX,
    ensures
        r == removed_after(paths@, place, expected, private, first, replies@, at as int),
{
    let second_at = at + RUNTIME_DIR_ANSWERS;
    match check_runtime_dir(paths, Some(paths.runtime_identity), replies, at) {
        Flow::Asks(action) => return Flow::Asks(action),
        Flow::Fails(fault) => return Flow::Fails(fault),
        Flow::Gives(_) => {},
    }
    let second = match show(replies, second_at, FileAction::Inspect(place), "reinspect", place) {
        Flow::Asks(action) => return Flow::Asks(action),
        Flow::Fails(fault) => return Flow::Fails(fault),
        Flow::Gives(second) => second,
    };
    if let Some(reason) = validate_artifact_metadata(
        second,
        paths.uid,
        artifact_kind(place),
        private,
    ) {
        return Flow::Fails(PathFault::Unsafe { place, reason });
    }
    if !same_file(first, second) {
        return Flow::Fails(
            PathFault::Unsafe { place, reason: "artifact was replaced during validation" },
        );
    }
    if let Some(reason) = find_removal_flaw(paths, place, expected, private, second) {
        return Flow::Fails(PathFault::Unsafe { place, reason });
    }
    match perform(replies, second_at + 1, FileAction::Remove(place), "remove", place) {
        Flow::Asks(action) => Flow::Asks(action),
        Flow::Fails(fault) => Flow::Fails(fault),
        Flow::Gives(()) => Flow::Gives(true),
    }
}

fn artifact_kind(place: Place) -> (r: ArtifactKind)
    ensures
        r == kind_of(place),
{
    match place {
        Place::Socket => ArtifactKind::Socket,
        _ => ArtifactKind::RegularFile,
    }
}

impl DaemonPaths {
    /// The path of an artifact.
    pub fn artifact(&self, place: Place) -> (r: &[u8])
        ensures
            r@ == artifact_path(self@, place),
    {
        match place {
            Place::Socket => self.socket.as_slice(),
            Place::Pid => self.pid.as_slice(),
            Place::Lock => self.lock.as_slice(),
            _ => self.runtime_dir.as_slice(),
        }
    }

    /// Revalidates the runtime directory, including its original device/inode
    /// identity, ownership, mode, and canonical parent relationship.
    pub fn validate_runtime_dir(&self, replies: &[FileReply]) -> (r: Flow<FileFacts>)
        ensures
            r == runtime_dir_checked(self@, Some(self.runtime_identity), replies@, 0),
    {
        check_runtime_dir(self, Some(self.runtime_identity), replies, 0)
    }

    pub fn validate_pid_path(&self, replies: &[FileReply]) -> (r: Flow<()>)
        ensures
            r == child_checked(self@, Place::Pid, replies@, 0),
    {
        check_child(self, Place::Pid, replies, 0)
    }

    fn capture_identity(&self, place: Place, replies: &[FileReply]) -> (r: Flow<
        Option<ArtifactIdentity>,
    >)
        requires
            is_artifact(place),
        ensures
            r == captured(self@, place, replies@),
    {
        match check_child(self, place, replies, 0) {
            Flow::Asks(action) => return Flow::Asks(action),
            Flow::Fails(fault) => return Flow::Fails(fault),
            Flow::Gives(()) => {},
        }
        match show_if_present(replies, CHILD_ANSWERS, place, "inspect") {
            Flow::Asks(action) => Flow::Asks(action),
            Flow::Fails(fault) => Flow::Fails(fault),
            Flow::Gives(None) => Flow::Gives(None),
            Flow::Gives(Some(facts)) => match validate_artifact_metadata(
                facts,
                self.uid,
                artifact_kind(place),
                true,
            ) {
                Some(reason) => Flow::Fails(PathFault::Unsafe { place, reason }),
                None => Flow::Gives(Some(ArtifactIdentity::from_facts(facts))),
            },
        }
    }

    /// Captures the currently published socket identity after validating its
    /// parent, type, owner, and symlink status.
    pub fn capture_socket_identity(&self, replies: &[FileReply]) -> (r: Flow<
        Option<ArtifactIdentity>,
    >)
        ensures
            r == captured(self@, Place::Socket, replies@),
    {
        self.capture_identity(Place::Socket, replies)
    }

    /// Captures the currently published PID identity with private-file mode
    /// validation.
    pub fn capture_pid_identity(&self, replies: &[FileReply]) -> (r: Flow<Option<ArtifactIdentity>>)
        ensures
            r == captured(self@, Place::Pid, replies@),
    {
        self.capture_identity(Place::Pid, replies)
    }

    /// Captures the lock identity held by this worker with private-file mode
    /// validation.
    pub fn capture_lock_identity(&self, replies: &[FileReply]) -> (r: Flow<
        Option<ArtifactIdentity>,
    >)
        ensures
            r == captured(self@, Place::Lock, replies@),
    {
        self.capture_identity(Place::Lock, replies)
    }

    fn safe_remove(
        &self,
        place: Place,
        expected: Option<ArtifactIdentity>,
        private: bool,
        replies: &[FileReply],
    ) -> (r: Flow<bool>)
        requires
            is_artifact(place),
        ensures
            r == removed(self@, place, expected, private, replies@),
    {
        match check_child(self, place, replies, 0) {
            Flow::Asks(action) => return Flow::Asks(action),
            Flow::Fails(fault) => return Flow::Fails(fault),
            Flow::Gives(()) => {},
        }
        let first = match show_if_present(replies, CHILD_ANSWERS, place, "inspect") {
            Flow::Asks(action) => return Flow::Asks(action),
            Flow::Fails(fault) => return Flow::Fails(fault),
            Flow::Gives(None) => return Flow::Gives(false),
            Flow::Gives(Some(first)) => first,
        };
        if let Some(reason) = find_removal_flaw(self, place, expected, private, first) {
            return Flow::Fails(PathFault::Unsafe { place, reason });
        }
        remove_after(self, place, expected, private, first, replies, CHILD_ANSWERS + 1)
    }

    /// Removes the socket while it still has the captured identity.
    pub fn remove_socket_if_owned(
        &self,
        identity: ArtifactIdentity,
        replies: &[FileReply],
    ) -> (r: Flow<bool>)
        ensures
            r == removed(self@, Place::Socket, Some(identity), false, replies@),
    {
        self.safe_remove(Place::Socket, Some(identity), false, replies)
    }

    /// Removes the PID file while it still has the captured identity.
    pub fn remove_pid_if_owned(
        &self,
        identity: ArtifactIdentity,
        replies: &[FileReply],
    ) -> (r: Flow<bool>)
        ensures
            r == removed(self@, Place::Pid, Some(identity), false, replies@),
    {
        self.safe_remove(Place::Pid, Some(identity), false, replies)
    }

    /// Removes the lock file while it still has the captured identity.
    pub fn remove_lock_if_owned(
        &self,
        identity: ArtifactIdentity,
        replies: &[FileReply],
    ) -> (r: Flow<bool>)
        ensures
            r == removed(self@, Place::Lock, Some(identity), false, replies@),
    {
        self.safe_remove(Place::Lock, Some(identity), false, replies)
    }

    /// Safely removes this server's PID file when it exists.
    pub fn remove_pid(&self, replies: &[FileReply]) -> (r: Flow<bool>)
        ensures
            r == removed(self@, Place::Pid, None, false, replies@),
    {
        self.safe_remove(Place::Pid, None, false, replies)
    }

    /// Safely removes this server's PID file when it exists and nobody but its
    /// owner has any permission on it.
    pub(crate) fn remove_private_pid(&self, replies: &[FileReply]) -> (r: Flow<bool>)
        ensures
            r == removed(self@, Place::Pid, None, true, replies@),
    {
        self.safe_remove(Place::Pid, None, true, replies)
    }

    /// Safely removes this server's lock file when it exists.
    pub fn remove_lock(&self, replies: &[FileReply]) -> (r: Flow<bool>)
        ensures
            r == removed(self@, Place::Lock, None, false, replies@),
    {
        self.safe_remove(Place::Lock, None, false, replies)
    }

    /// Safely removes this server's Unix socket when it exists.
    pub fn remove_socket(&self, replies: &[FileReply]) -> (r: Flow<bool>)
        ensures
            r == removed(self@, Place::Socket, None, false, replies@),
    {
        self.safe_remove(Place::Socket, None, false, replies)
    }
}

/// The file name of an artifact.
pub open spec fn artifact_name(id: Seq<char>, place: Place) -> Seq<u8> {
    utf8(id) + suffix_of(place)
}

/// The paths for an identifier below a resolved temporary root.
pub open spec fn paths_below(
    parent: Seq<u8>,
    id: Seq<char>,
    uid: u32,
    runtime_identity: ArtifactIdentity,
) -> PathsContent {
    let runtime_dir = unix_path::below(
        parent,
        utf8(RUNTIME_DIRECTORY_PREFIX@ + text::decimal(uid as nat)),
    );
    PathsContent {
        runtime_dir,
        socket: unix_path::below(runtime_dir, artifact_name(id, Place::Socket)),
        pid: unix_path::below(runtime_dir, artifact_name(id, Place::Pid)),
        lock: unix_path::below(runtime_dir, artifact_name(id, Place::Lock)),
        uid,
        runtime_identity,
    }
}

fn name_artifact(runtime_dir: &[u8], id: &ServerId, place: Place) -> (r: Vec<u8>)
    ensures
        r@ == unix_path::below(runtime_dir@, artifact_name(id.0@, place)),
{
    let mut name = vstd::slice::slice_to_vec(id.0.as_str().as_bytes());
    let mut suffix = suffix_bytes(place);
    name.append(&mut suffix);
    join_path(runtime_dir, name.as_slice())
}

fn place_below(
    parent: &[u8],
    id: &ServerId,
    uid: u32,
    runtime_identity: ArtifactIdentity,
) -> (r: DaemonPaths)
    ensures
        r@ == paths_below(parent@, id.0@, uid, runtime_identity),
{
    let mut name = RUNTIME_DIRECTORY_PREFIX.to_owned();
    name.append(decimal_text(uid as u128).as_str());
    let runtime_dir = join_path(parent, name.as_str().as_bytes());
    let socket = name_artifact(runtime_dir.as_slice(), id, Place::Socket);
    let pid = name_artifact(runtime_dir.as_slice(), id, Place::Pid);
    let lock = name_artifact(runtime_dir.as_slice(), id, Place::Lock);
    DaemonPaths { runtime_dir, socket, pid, lock, uid, runtime_identity }
}

/// The identity of a runtime directory that has not been inspected yet.
pub open spec fn unknown_identity() -> ArtifactIdentity {
    ArtifactIdentity { device: 0, inode: 0 }
}

/// Creates the runtime directory, or accepts the one that is there. Gives the
/// number of answers that were used.
pub open spec fn directory_present(uid: u32, replies: Seq<FileReply>, at: int) -> Flow<int> {
    let place = Place::RuntimeDir;
    match files::shown_if_present(replies, at, place, "inspect") {
        Flow::Asks(action) => Flow::Asks(action),
        Flow::Fails(fault) => Flow::Fails(fault),
        Flow::Gives(Some(facts)) => match runtime_entry_flaw(facts, uid) {
            Some(reason) => Flow::Fails(PathFault::Unsafe { place, reason }),
            None => Flow::Gives(at + 1),
        },
        Flow::Gives(None) => if at + 1 >= replies.len() {
            Flow::Asks(FileAction::CreateDirectory(place))
        } else if replies[at + 1] is Done || replies[at + 1] is Exists {
            match files::shown(replies, at + 2, FileAction::Inspect(place), "inspect", place) {
                Flow::Asks(action) => Flow::Asks(action),
                Flow::Fails(fault) => Flow::Fails(fault),
                Flow::Gives(facts) => match runtime_entry_flaw(facts, uid) {
                    Some(reason) => Flow::Fails(PathFault::Unsafe { place, reason }),
                    None => Flow::Gives(at + 3),
                },
            }
        } else {
            Flow::Fails(PathFault::Io { operation: "create", place })
        },
    }
}

/// Makes the runtime directory private, and checks that it did not escape the
/// temporary root.
pub open spec fn directory_private(
    paths: PathsContent,
    parent: Seq<u8>,
    replies: Seq<FileReply>,
    at: int,
) -> Flow<()> {
    let place = Place::RuntimeDir;
    match files::performed(
        replies,
        at,
        FileAction::SetMode(place, PRIVATE_DIRECTORY_MODE),
        "set permissions on",
        place,
    ) {
        Flow::Asks(action) => Flow::Asks(action),
        Flow::Fails(fault) => Flow::Fails(fault),
        Flow::Gives(()) => if at + 1 >= replies.len() {
            Flow::Asks(FileAction::Resolve(place))
        } else {
            match replies[at + 1] {
                FileReply::Path(path) => if unix_path::parent_outline(unix_path::outline(path@))
                    == Some(unix_path::outline(parent)) && unix_path::outline(path@)
                    == unix_path::outline(paths.runtime_dir) {
                    Flow::Gives(())
                } else {
                    Flow::Fails(
                        PathFault::Unsafe {
                            place,
                            reason: "runtime directory escaped its canonical temporary root",
                        },
                    )
                },
                _ => Flow::Fails(PathFault::Io { operation: "canonicalize", place }),
            }
        },
    }
}

/// Checks the three artifact paths in turn.
pub open spec fn children_checked(paths: PathsContent, replies: Seq<FileReply>, at: int) -> Flow<
    (),
> {
    match child_checked(paths, Place::Socket, replies, at) {
        Flow::Gives(()) => match child_checked(paths, Place::Pid, replies, at + CHILD_ANSWERS) {
            Flow::Gives(()) => child_checked(paths, Place::Lock, replies, at + 2 * CHILD_ANSWERS),
            other => other,
        },
        other => other,
    }
}

/// Everything behind the temporary root: the runtime directory and the names
/// in it.
pub open spec fn directory_set_up(
    parent: Seq<u8>,
    id: Seq<char>,
    uid: u32,
    replies: Seq<FileReply>,
    at: int,
) -> Flow<PathsContent> {
    let candidate = paths_below(parent, id, uid, unknown_identity());
    match directory_present(uid, replies, at) {
        Flow::Asks(action) => Flow::Asks(action),
        Flow::Fails(fault) => Flow::Fails(fault),
        Flow::Gives(next) => match directory_private(candidate, parent, replies, next) {
            Flow::Asks(action) => Flow::Asks(action),
            Flow::Fails(fault) => Flow::Fails(fault),
            Flow::Gives(()) => match runtime_dir_checked(candidate, None, replies, next + 2) {
                Flow::Asks(action) => Flow::Asks(action),
                Flow::Fails(fault) => Flow::Fails(fault),
                Flow::Gives(facts) => {
                    let paths = paths_below(parent, id, uid, files::identity_of(facts));
                    match children_checked(paths, replies, next + 2 + RUNTIME_DIR_ANSWERS) {
                        Flow::Asks(action) => Flow::Asks(action),
                        Flow::Fails(fault) => Flow::Fails(fault),
                        Flow::Gives(()) => Flow::Gives(paths),
                    }
                },
            },
        },
    }
}

/// The path to which the temporary root was resolved.
pub open spec fn resolved_root(replies: Seq<FileReply>) -> Seq<u8> {
    if replies.len() > 0 {
        match replies[0] {
            FileReply::Path(path) => path@,
            _ => Seq::empty(),
        }
    } else {
        Seq::empty()
    }
}

/// Creates or securely reuses the runtime directory below a temporary root.
pub open spec fn set_up(id: Seq<char>, uid: u32, replies: Seq<FileReply>) -> Flow<PathsContent> {
    if !valid_server_id(id) {
        Flow::Fails(
            PathFault::Unsafe {
                place: Place::Identifier,
                reason: "server identifier must be a full lowercase SHA-256 digest",
            },
        )
    } else if replies.len() == 0 {
        Flow::Asks(FileAction::Resolve(Place::TemporaryRoot))
    } else if replies[0] !is Path {
        Flow::Fails(PathFault::Io { operation: "canonicalize", place: Place::TemporaryRoot })
    } else {
        match files::shown(replies, 1, FileAction::Follow(Place::Parent), "inspect", Place::Parent) {
            Flow::Asks(action) => Flow::Asks(action),
            Flow::Fails(fault) => Flow::Fails(fault),
            Flow::Gives(facts) => if facts.kind != FileKind::Directory {
                Flow::Fails(
                    PathFault::Unsafe {
                        place: Place::Parent,
                        reason: "temporary root is not a directory",
                    },
                )
            } else {
                directory_set_up(resolved_root(replies), id, uid, replies, 2)
            },
        }
    }
}

/// The progress shows what the model says.
pub open spec fn sets_up(progress: Flow<DaemonPaths>, model: Flow<PathsContent>) -> bool {
    match model {
        Flow::Asks(action) => progress matches Flow::Asks(asked) && asked == action,
        Flow::Fails(fault) => progress matches Flow::Fails(failed) && failed == fault,
        Flow::Gives(content) => progress matches Flow::Gives(paths) && paths@ == content,
    }
}

fn find_directory(uid: u32, replies: &[FileReply], at: usize) -> (r: Flow<usize>)
    requires
        at + 3 <= usize::MAX,
    ensures
        match directory_present(uid, replies@, at as int) {
            Flow::Asks(action) => r matches Flow::Asks(asked) && asked == action,
            Flow::Fails(fault) => r matches Flow::Fails(failed) && failed == fault,
            Flow::Gives(next) => r matches Flow::Gives(found) && found == next && next <= at + 3,
        },
{
    let place = Place::RuntimeDir;
    let present = match show_if_present(replies, at, place, "inspect") {
        Flow::Asks(action) => return Flow::Asks(action),
        Flow::Fails(fault) => return Flow::Fails(fault),
        Flow::Gives(present) => present,
    };
    if let Some(facts) = present {
        return match validate_runtime_entry(facts, uid) {
            Some(reason) => Flow::Fails(PathFault::Unsafe { place, reason }),
            None => Flow::Gives(at + 1),
        };
    }
    if at + 1 >= replies.len() {
        return Flow::Asks(FileAction::CreateDirectory(place));
    }
    match &replies[at + 1] {
        FileReply::Done | FileReply::Exists => {},
        _ => return Flow::Fails(PathFault::Io { operation: "create", place }),
    }
    match show(replies, at + 2, FileAction::Inspect(place), "inspect", place) {
        Flow::Asks(action) => Flow::Asks(action),
        Flow::Fails(fault) => Flow::Fails(fault),
        Flow::Gives(facts) => match validate_runtime_entry(facts, uid) {
            Some(reason) => Flow::Fails(PathFault::Unsafe { place, reason }),
            None => Flow::Gives(at + 3),
        },
    }
}

fn make_private(
    paths: &DaemonPaths,
    parent: &[u8],
    replies: &[FileReply],
    at: usize,
) -> (r: Flow<()>)
    requires
        at + 1 <= usize::MAX,
    ensures
        r == directory_private(paths@, parent@, replies@, at as int),
{
    let place = Place::RuntimeDir;
    match perform(
        replies,
        at,
        FileAction::SetMode(place, PRIVATE_DIRECTORY_MODE),
        "set permissions on",
        place,
    ) {
        Flow::Asks(action) => return Flow::Asks(action),
        Flow::Fails(fault) => return Flow::Fails(fault),
        Flow::Gives(()) => {},
    }
    if at + 1 >= replies.len() {
        return Flow::Asks(FileAction::Resolve(place));
    }
    match &replies[at + 1] {
        FileReply::Path(path) => {
            if stands_in(path.as_slice(), parent) && same_path(
                path.as_slice(),
                paths.runtime_dir.as_slice(),
            ) {
                Flow::Gives(())
            } else {
                Flow::Fails(
                    PathFault::Unsafe {
                        place,
                        reason: "runtime directory escaped its canonical temporary root",
                    },
                )
            }
        },
        _ => Flow::Fails(PathFault::Io { operation: "canonicalize", place }),
    }
}

fn validate_all_children(paths: &DaemonPaths, replies: &[FileReply], at: usize) -> (r: Flow<()>)
    requires
        at + 3 * CHILD_ANSWERS <= usize::MAX,
    ensures
        r == children_checked(paths@, replies@, at as int),
{
    match check_child(paths, Place::Socket, replies, at) {
        Flow::Gives(()) => {},
        other => return other,
    }
    match check_child(paths, Place::Pid, replies, at + CHILD_ANSWERS) {
        Flow::Gives(()) => {},
        other => return other,
    }
    check_child(paths, Place::Lock, replies, at + 2 * CHILD_ANSWERS)
}

fn set_up_directory(
    parent: &[u8],
    id: &ServerId,
    uid: u32,
    replies: &[FileReply],
    at: usize,
) -> (r: Flow<DaemonPaths>)
    requires
        at + 5 + RUNTIME_DIR_ANSWERS + 3 * CHILD_ANSWERS <= usize::MAX,
    ensures
        sets_up(r, directory_set_up(parent@, id.0@, uid, replies@, at as int)),
{
    let unknown = ArtifactIdentity { device: 0, inode: 0 };
    let mut paths = place_below(parent, id, uid, unknown);
    let next = match find_directory(uid, replies, at) {
        Flow::Asks(action) => return Flow::Asks(action),
        Flow::Fails(fault) => return Flow::Fails(fault),
        Flow::Gives(next) => next,
    };
    match make_private(&paths, parent, replies, next) {
        Flow::Asks(action) => return Flow::Asks(action),
        Flow::Fails(fault) => return Flow::Fails(fault),
        Flow::Gives(()) => {},
    }
    let facts = match check_runtime_dir(&paths, None, replies, next + 2) {
        Flow::Asks(action) => return Flow::Asks(action),
        Flow::Fails(fault) => return Flow::Fails(fault),
        Flow::Gives(facts) => facts,
    };
    paths.runtime_identity = ArtifactIdentity::from_facts(facts);
    match validate_all_children(&paths, replies, next + 2 + RUNTIME_DIR_ANSWERS) {
        Flow::Asks(action) => Flow::Asks(action),
        Flow::Fails(fault) => Flow::Fails(fault),
        Flow::Gives(()) => Flow::Gives(paths),
    }
}

impl DaemonPaths {
    /// Creates or securely reuses `<root>/mcp-cli-<uid>/` below an explicit
    /// temporary root and derives artifact names solely from a complete
    /// lowercase hexadecimal identifier.
    pub fn from_runtime_parent(id: &ServerId, uid: u32, replies: &[FileReply]) -> (r: Flow<
        DaemonPaths,
    >)
        ensures
            sets_up(r, set_up(id.0@, uid, replies@)),
    {
        if !is_valid_server_id(id) {
            return Flow::Fails(
                PathFault::Unsafe {
                    place: Place::Identifier,
                    reason: "server identifier must be a full lowercase SHA-256 digest",
                },
            );
        }
        if replies.len() == 0 {
            return Flow::Asks(FileAction::Resolve(Place::TemporaryRoot));
        }
        let parent = match &replies[0] {
            FileReply::Path(parent) => parent,
            _ => {
                return Flow::Fails(
                    PathFault::Io { operation: "canonicalize", place: Place::TemporaryRoot },
                );
            },
        };
        match show(replies, 1, FileAction::Follow(Place::Parent), "inspect", Place::Parent) {
            Flow::Asks(action) => return Flow::Asks(action),
            Flow::Fails(fault) => return Flow::Fails(fault),
            Flow::Gives(facts) => {
                if facts.kind != FileKind::Directory {
                    return Flow::Fails(
                        PathFault::Unsafe {
                            place: Place::Parent,
                            reason: "temporary root is not a directory",
                        },
                    );
                }
            },
        }
        set_up_directory(parent.as_slice(), id, uid, replies, 2)
    }
}

/// The path of a place while the runtime directory is being set up.
pub open spec fn set_up_path(
    place: Place,
    temporary_root: Seq<u8>,
    id: Seq<char>,
    uid: u32,
    replies: Seq<FileReply>,
) -> Seq<u8> {
    match place {
        Place::Identifier => utf8(id),
        Place::TemporaryRoot => temporary_root,
        Place::Parent => resolved_root(replies),
        _ => artifact_path(
            paths_below(resolved_root(replies), id, uid, unknown_identity()),
            place,
        ),
    }
}

pub fn locate_during_set_up(
    place: Place,
    temporary_root: &[u8],
    id: &ServerId,
    uid: u32,
    replies: &[FileReply],
) -> (r: Vec<u8>)
    ensures
        r@ == set_up_path(place, temporary_root@, id.0@, uid, replies@),
{
    let mut parent: Vec<u8> = Vec::new();
    if replies.len() > 0 {
        if let FileReply::Path(path) = &replies[0] {
            parent = vstd::slice::slice_to_vec(path.as_slice());
        }
    }
    assert(parent@ =~= resolved_root(replies@));
    match place {
        Place::Identifier => vstd::slice::slice_to_vec(id.0.as_str().as_bytes()),
        Place::TemporaryRoot => vstd::slice::slice_to_vec(temporary_root),
        Place::Parent => parent,
        _ => {
            let unknown = ArtifactIdentity { device: 0, inode: 0 };
            let paths = place_below(parent.as_slice(), id, uid, unknown);
            vstd::slice::slice_to_vec(paths.artifact(place))
        },
    }
}

/// The temporary root that the environment configures: `TMPDIR` unless it is
/// empty, and otherwise `/tmp`.
pub fn temporary_root(configured: Option<&[u8]>) -> (r: Vec<u8>)
    ensures
        r@ == (match configured {
            Some(root) => if root@.len() > 0 {
                root@
            } else {
                utf8("/tmp"@)
            },
            None => utf8("/tmp"@),
        }),
{
    if let Some(root) = configured {
        if root.len() > 0 {
            return vstd::slice::slice_to_vec(root);
        }
    }
    vstd::slice::slice_to_vec("/tmp".as_bytes())
}

/// An artifact is removed only after two inspections that show the same entry
/// of the right type and owner, with a private mode where one is asked for and
/// the expected identity where one is expected, inside the unchanged private
/// runtime directory.
pub proof fn removals_follow_two_agreeing_inspections(
    paths: PathsContent,
    place: Place,
    expected: Option<ArtifactIdentity>,
    private: bool,
    replies: Seq<FileReply>,
    target: Place,
)
    requires
        removed(paths, place, expected, private, replies) == Flow::<bool>::Asks(
            FileAction::Remove(target),
        ),
    ensures
        target == place,
        child_fault(paths, place) is None,
        replies[0] matches FileReply::Facts(directory) && runtime_dir_flaw(
            directory,
            paths.uid,
            Some(paths.runtime_identity),
        ) is None,
        replies[4] matches FileReply::Facts(directory) && runtime_dir_flaw(
            directory,
            paths.uid,
            Some(paths.runtime_identity),
        ) is None,
        ({
            &&& replies[3] matches FileReply::Facts(first)
            &&& replies[6] matches FileReply::Facts(second)
            &&& artifact_flaw(first, paths.uid, kind_of(place), private) is None
            &&& artifact_flaw(second, paths.uid, kind_of(place), private) is None
            &&& files::identity_of(first) == files::identity_of(second)
            &&& expected matches Some(identity) ==> files::identity_of(first) == identity
        }),
{
}

/// A captured identity belongs to a private artifact of the right type that the
/// current user owns.
pub proof fn captured_artifacts_are_private(
    paths: PathsContent,
    place: Place,
    replies: Seq<FileReply>,
    identity: ArtifactIdentity,
)
    requires
        captured(paths, place, replies) == Flow::Gives(Some(identity)),
    ensures
        replies[3] matches FileReply::Facts(facts) && files::identity_of(facts) == identity
            && artifact_flaw(facts, paths.uid, kind_of(place), true) is None,
{
}

/// A verdict does not change with further answers.
pub proof fn removal_verdicts_are_final(
    paths: PathsContent,
    place: Place,
    expected: Option<ArtifactIdentity>,
    private: bool,
    replies: Seq<FileReply>,
    more: Seq<FileReply>,
)
    requires
        removed(paths, place, expected, private, replies) !is Asks,
    ensures
        removed(paths, place, expected, private, replies + more) == removed(
            paths,
            place,
            expected,
            private,
            replies,
        ),
{
}

/// The runtime directory that a set-up gives was seen to be a private directory
/// of the current user, and its paths are named after the identifier alone.
pub proof fn set_up_directories_are_private(
    id: Seq<char>,
    uid: u32,
    replies: Seq<FileReply>,
    paths: PathsContent,
)
    requires
        set_up(id, uid, replies) == Flow::Gives(paths),
    ensures
        valid_server_id(id),
        paths == paths_below(resolved_root(replies), id, uid, paths.runtime_identity),
        exists|at: int|
            #![trigger replies[at]]
            0 <= at < replies.len() && (replies[at] matches FileReply::Facts(facts)
                && files::identity_of(facts) == paths.runtime_identity && runtime_dir_flaw(
                facts,
                uid,
                None,
            ) is None),
{
    let next = directory_present(uid, replies, 2)->Gives_0;
    assert(replies[next + 2] is Facts);
}

/// Nothing is asked of the file system for an identifier that is no digest.
pub proof fn invalid_identifiers_touch_nothing(id: Seq<char>, uid: u32, replies: Seq<FileReply>)
    requires
        !valid_server_id(id),
    ensures
        set_up(id, uid, replies) is Fails,
{
}

proof fn lemma_suffix(place: Place)
    requires
        is_artifact(place),
    ensures
        suffix_of(place).len() >= 4,
        suffix_of(place)[1] != unix_path::DOT,
        !suffix_of(place).contains(unix_path::SLASH),
        vstd::utf8::valid_utf8(suffix_of(place)),
{
    reveal_strlit(".sock");
    reveal_strlit(".pid");
    reveal_strlit(".lock");
    let name = match place {
        Place::Socket => SOCKET_SUFFIX@,
        Place::Pid => PID_SUFFIX@,
        _ => LOCK_SUFFIX@,
    };
    assert(vstd::utf8::is_ascii_chars(name));
    vstd::utf8::is_ascii_chars_encode_utf8(name);
    vstd::utf8::encode_utf8_valid_utf8(name);
    assert forall|i: int| 0 <= i < suffix_of(place).len() implies suffix_of(place)[i]
        != unix_path::SLASH by {
        assert(name[i] as u8 == suffix_of(place)[i]);
    }
    assert(name[1] as u8 == suffix_of(place)[1]);
}

/// Whatever server a name was hashed from, its artifacts stand directly in the
/// runtime directory under the digest and their suffix.
pub proof fn artifacts_stay_in_the_runtime_directory(
    parent: Seq<u8>,
    id: Seq<char>,
    uid: u32,
    identity: ArtifactIdentity,
    place: Place,
)
    requires
        valid_server_id(id),
        is_artifact(place),
    ensures
        child_fault(paths_below(parent, id, uid, identity), place) is None,
        unix_path::file_name(artifact_path(paths_below(parent, id, uid, identity), place)) == Some(
            artifact_name(id, place),
        ),
        !artifact_name(id, place).contains(unix_path::SLASH),
{
    let paths = paths_below(parent, id, uid, identity);
    lemma_artifact_name(id, place);
    lemma_artifact_name(id, Place::Pid);
    unix_path::names_stay_below_their_directory(paths.runtime_dir, artifact_name(id, place));
    unix_path::names_stay_below_their_directory(paths.runtime_dir, artifact_name(id, Place::Pid));
    let name = artifact_name(id, Place::Pid);
    assert(name.skip(name.len() - suffix_of(Place::Pid).len()) =~= suffix_of(Place::Pid));
    assert(name.take(name.len() - suffix_of(Place::Pid).len()) =~= utf8(id));
}

proof fn lemma_artifact_name(id: Seq<char>, place: Place)
    requires
        valid_server_id(id),
        is_artifact(place),
    ensures
        unix_path::is_name(artifact_name(id, place)),
        artifact_name(id, place) != seq![unix_path::DOT, unix_path::DOT],
        !artifact_name(id, place).contains(unix_path::SLASH),
        vstd::utf8::valid_utf8(artifact_name(id, place)),
{
    let name = artifact_name(id, place);
    lemma_suffix(place);
    assert(name.len() >= 68);
    assert(seq![unix_path::DOT, unix_path::DOT].len() == 2);
    assert(seq![unix_path::DOT].len() == 1);
    assert forall|i: int| 0 <= i < name.len() implies name[i] != unix_path::SLASH by {
        if i < utf8(id).len() {
            assert(crate::config::hex_value(utf8(id)[i]) is Some);
        } else {
            assert(suffix_of(place).contains(suffix_of(place)[i - utf8(id).len()]));
        }
    }
    vstd::utf8::encode_utf8_valid_utf8(id);
    vstd::utf8::valid_utf8_concat(utf8(id), suffix_of(place));
}

/// A server identifier is sixty-four digits, each `0` to `9` or `a` to `f`.
pub proof fn server_identifiers_are_digests(id: &ServerId, r: bool)
    requires
        call_ensures(is_valid_server_id, (id,), r),
    ensures
        r <==> utf8(id.0@).len() == 64 && forall|i: int|
            0 <= i < 64 ==> 48 <= #[trigger] utf8(id.0@)[i] <= 57 || 97 <= utf8(id.0@)[i] <= 102,
{
    let source = utf8(id.0@);
    if r {
        assert forall|i: int| 0 <= i < 64 implies 48 <= #[trigger] source[i] <= 57 || 97
            <= source[i] <= 102 by {
            assert(crate::config::hex_value(source[i]) is Some);
        }
    }
    if source.len() == 64 && forall|i: int|
        0 <= i < 64 ==> 48 <= #[trigger] source[i] <= 57 || 97 <= source[i] <= 102 {
        assert forall|i: int| 0 <= i < source.len() implies crate::config::hex_value(
            #[trigger] source[i],
        ) is Some by {}
    }
}

/// An artifact is in order exactly where it is of its own kind and the user's,
/// and, where that is asked for, nobody else has any permission on it.
pub proof fn artifacts_are_private_files_of_the_user(
    facts: FileFacts,
    uid: u32,
    kind: ArtifactKind,
    private: bool,
    r: Option<&'static str>,
    directory: Option<&'static str>,
)
    requires
        call_ensures(validate_artifact_metadata, (facts, uid, kind, private), r),
        call_ensures(validate_runtime_entry, (facts, uid), directory),
    ensures
        r is None <==> {
            &&& kind is RegularFile ==> facts.kind is Regular
            &&& kind is Socket ==> facts.kind is Socket
            &&& facts.uid == uid
            &&& private ==> facts.mode & 0o077 == 0
        },
        facts.kind is Symlink ==> r == Some("daemon artifact must not be a symbolic link"),
        directory is None <==> facts.kind is Directory && facts.uid == uid,
        facts.kind is Symlink ==> directory == Some(
            "runtime directory must not be a symbolic link",
        ),
        facts.kind !is Symlink && facts.kind !is Directory ==> directory == Some(
            "runtime path is not a directory",
        ),
        facts.kind is Directory && facts.uid != uid ==> directory == Some(
            "runtime directory is not owned by the current UID",
        ),
{
}

/// The runtime directory is accepted exactly where it is the same directory as
/// before, the user's, with mode 0700, and its path resolves to itself.
pub proof fn runtime_directories_stay_what_they_were(
    paths: &DaemonPaths,
    replies: &[FileReply],
    r: Flow<FileFacts>,
    facts: FileFacts,
)
    requires
        call_ensures(DaemonPaths::validate_runtime_dir, (paths, replies), r),
    ensures
        replies@.len() == 0 ==> r == Flow::<FileFacts>::Asks(
            FileAction::Inspect(Place::RuntimeDir),
        ),
        r == Flow::Gives(facts) <==> {
            &&& replies@.len() > 1
            &&& replies@[0] == FileReply::Facts(facts)
            &&& facts.kind is Directory
            &&& facts.uid == paths.uid
            &&& facts.mode & 0o7777 == 0o700
            &&& facts.device == paths.runtime_identity.device
            &&& facts.inode == paths.runtime_identity.inode
            &&& replies@[1] matches FileReply::Path(path) && unix_path::outline(path@)
                == unix_path::outline(paths.runtime_dir@)
        },
        r == Flow::<FileFacts>::Asks(FileAction::Resolve(Place::RuntimeDir)) ==> replies@.len()
            == 1 && replies@[0] is Facts,
{
}

/// An artifact has the server's digest for a name and stands in the runtime
/// directory itself.
pub proof fn children_carry_the_identifier(paths: PathsContent, place: Place, id: Seq<u8>)
    requires
        unix_path::file_name(paths.pid) == Some(id + utf8(".pid"@)),
        vstd::utf8::valid_utf8(id + utf8(".pid"@)),
        is_artifact(place),
    ensures
        child_fault(paths, place) is None <==> {
            &&& unix_path::parent_outline(unix_path::outline(artifact_path(paths, place))) == Some(
                unix_path::outline(paths.runtime_dir),
            )
            &&& unix_path::file_name(artifact_path(paths, place)) == Some(
                id + (match place {
                    Place::Socket => utf8(".sock"@),
                    Place::Pid => utf8(".pid"@),
                    _ => utf8(".lock"@),
                }),
            )
        },
        artifact_path(paths, place) == (match place {
            Place::Socket => paths.socket,
            Place::Pid => paths.pid,
            _ => paths.lock,
        }),
{
    let suffix = utf8(".pid"@);
    let name = id + suffix;
    assert(name.skip(name.len() - suffix.len()) =~= suffix);
    assert(name.take(name.len() - suffix.len()) =~= id);
}

/// The answers of a check that found the runtime directory as it was.
pub open spec fn directory_answers(paths: PathsContent, replies: Seq<FileReply>, at: int) -> bool {
    &&& 0 <= at && at + 1 < replies.len()
    &&& replies[at] matches FileReply::Facts(facts) && facts.kind is Directory && facts.uid
        == paths.uid && facts.mode & 0o7777 == 0o700 && facts.device
        == paths.runtime_identity.device && facts.inode == paths.runtime_identity.inode
    &&& replies[at + 1] matches FileReply::Path(path) && unix_path::outline(path@)
        == unix_path::outline(paths.runtime_dir)
}

/// An entry that is an artifact of the user's at a place.
pub open spec fn artifact_at(paths: PathsContent, place: Place, facts: FileFacts) -> bool {
    facts.uid == paths.uid && if place is Socket {
        facts.kind is Socket
    } else {
        facts.kind is Regular
    }
}

/// An artifact in an unchanged directory is captured by its device and inode if
/// nobody else has any permission on it; one that is missing is nobody's.
pub proof fn sound_artifacts_are_captured(
    paths: PathsContent,
    place: Place,
    replies: Seq<FileReply>,
)
    requires
        is_artifact(place),
        child_fault(paths, place) is None,
        directory_answers(paths, replies, 0),
        replies.len() > 3,
        replies[2] matches FileReply::Path(path) && unix_path::outline(path@)
            == unix_path::outline(paths.runtime_dir),
    ensures
        replies[3] is Missing ==> captured(paths, place, replies) == Flow::Gives(
            None::<ArtifactIdentity>,
        ),
        replies[3] matches FileReply::Facts(facts) ==> {
            if artifact_at(paths, place, facts) && facts.mode & 0o077 == 0 {
                captured(paths, place, replies) == Flow::Gives(
                    Some(ArtifactIdentity { device: facts.device, inode: facts.inode }),
                )
            } else {
                captured(paths, place, replies) is Fails
            }
        },
        replies[3] !is Missing && replies[3] !is Facts ==> captured(paths, place, replies) is Fails,
{
}

/// An artifact in an unchanged directory is removed once two inspections show the
/// same file, the expected one; one that is missing needs no removal.
pub proof fn sound_artifacts_are_removed(
    paths: PathsContent,
    place: Place,
    expected: Option<ArtifactIdentity>,
    private: bool,
    replies: Seq<FileReply>,
)
    requires
        is_artifact(place),
        child_fault(paths, place) is None,
        directory_answers(paths, replies, 0),
        replies.len() > 3,
        replies[2] matches FileReply::Path(path) && unix_path::outline(path@)
            == unix_path::outline(paths.runtime_dir),
    ensures
        replies[3] is Missing ==> removed(paths, place, expected, private, replies) == Flow::Gives(
            false,
        ),
        ({
            &&& directory_answers(paths, replies, 4)
            &&& replies.len() > 6
            &&& replies[3] matches FileReply::Facts(first) && artifact_at(paths, place, first) && (
            private ==> first.mode & 0o077 == 0) && (expected matches Some(identity) ==> first.device
                == identity.device && first.inode == identity.inode)
            &&& replies[6] matches FileReply::Facts(second) && artifact_at(paths, place, second)
                && (private ==> second.mode & 0o077 == 0) && second.device
                == replies[3]->Facts_0.device && second.inode == replies[3]->Facts_0.inode
        }) ==> {
            &&& replies.len() == 7 ==> removed(paths, place, expected, private, replies)
                == Flow::<bool>::Asks(FileAction::Remove(place))
            &&& replies.len() > 7 && replies[7] is Done ==> removed(
                paths,
                place,
                expected,
                private,
                replies,
            ) == Flow::Gives(true)
            &&& replies.len() > 7 && replies[7] !is Done ==> removed(
                paths,
                place,
                expected,
                private,
                replies,
            ) is Fails
        },
        removed(paths, place, expected, private, replies) == Flow::Gives(true) ==> replies.len() > 7
            && replies[7] is Done && directory_answers(paths, replies, 4),
        removed(paths, place, expected, private, replies) == Flow::Gives(false) ==> replies[3]
            is Missing,
{
}

/// Every removal removes its own artifact; those that are bound to an identity
/// ask for it.
pub proof fn removals_stick_to_their_artifact(
    paths: &DaemonPaths,
    identity: ArtifactIdentity,
    replies: &[FileReply],
    socket: Flow<bool>,
    pid: Flow<bool>,
    lock: Flow<bool>,
    target: Place,
)
    requires
        call_ensures(DaemonPaths::remove_socket_if_owned, (paths, identity, replies), socket),
        call_ensures(DaemonPaths::remove_pid_if_owned, (paths, identity, replies), pid),
        call_ensures(DaemonPaths::remove_lock_if_owned, (paths, identity, replies), lock),
    ensures
        socket == Flow::<bool>::Asks(FileAction::Remove(target)) ==> target is Socket,
        pid == Flow::<bool>::Asks(FileAction::Remove(target)) ==> target is Pid,
        lock == Flow::<bool>::Asks(FileAction::Remove(target)) ==> target is Lock,
        socket == Flow::<bool>::Asks(FileAction::Remove(target)) || pid == Flow::<bool>::Asks(
            FileAction::Remove(target),
        ) || lock == Flow::<bool>::Asks(FileAction::Remove(target)) ==> (replies@[3] matches
            FileReply::Facts(first) && first.device == identity.device && first.inode
            == identity.inode && first.uid == paths.uid) && (replies@[6] matches FileReply::Facts(
            second,
        ) && second.device == identity.device && second.inode == identity.inode && second.uid
            == paths.uid),
{
    if socket == Flow::<bool>::Asks(FileAction::Remove(target)) {
        removals_follow_two_agreeing_inspections(
            paths@,
            Place::Socket,
            Some(identity),
            false,
            replies@,
            target,
        );
    }
    if pid == Flow::<bool>::Asks(FileAction::Remove(target)) {
        removals_follow_two_agreeing_inspections(
            paths@,
            Place::Pid,
            Some(identity),
            false,
            replies@,
            target,
        );
    }
    if lock == Flow::<bool>::Asks(FileAction::Remove(target)) {
        removals_follow_two_agreeing_inspections(
            paths@,
            Place::Lock,
            Some(identity),
            false,
            replies@,
            target,
        );
    }
}

/// The runtime directory is `mcp-cli-` and the user's number below the temporary
/// root, and the artifacts are the identifier with their suffixes below that.
pub proof fn artifacts_are_named_after_their_server(
    parent: Seq<u8>,
    id: Seq<char>,
    uid: u32,
    identity: ArtifactIdentity,
)
    ensures
        ({
            let paths = paths_below(parent, id, uid, identity);
            &&& paths.runtime_dir == unix_path::below(
                parent,
                utf8("mcp-cli-"@ + text::decimal(uid as nat)),
            )
            &&& paths.socket == unix_path::below(paths.runtime_dir, utf8(id) + utf8(".sock"@))
            &&& paths.pid == unix_path::below(paths.runtime_dir, utf8(id) + utf8(".pid"@))
            &&& paths.lock == unix_path::below(paths.runtime_dir, utf8(id) + utf8(".lock"@))
            &&& paths.uid == uid
            &&& paths.runtime_identity == identity
        }),
{
}

/// A runtime directory that is there is taken if it is the user's, and one that is
/// missing is made; either way it gets mode 0700 and must stay directly below the
/// temporary root.
pub proof fn runtime_directories_are_made_private(
    paths: PathsContent,
    parent: Seq<u8>,
    uid: u32,
    replies: Seq<FileReply>,
    at: int,
)
    requires
        0 <= at,
    ensures
        at < replies.len() ==> (replies[at] matches FileReply::Facts(facts) ==> {
            if facts.kind is Directory && facts.uid == uid {
                directory_present(uid, replies, at) == Flow::Gives(at + 1)
            } else {
                directory_present(uid, replies, at) is Fails
            }
        }),
        at + 1 == replies.len() && replies[at] is Missing ==> directory_present(uid, replies, at)
            == Flow::<int>::Asks(FileAction::CreateDirectory(Place::RuntimeDir)),
        at + 2 < replies.len() && replies[at] is Missing && (replies[at + 1] is Done || replies[at
            + 1] is Exists) ==> (replies[at + 2] matches FileReply::Facts(facts) ==> {
            if facts.kind is Directory && facts.uid == uid {
                directory_present(uid, replies, at) == Flow::Gives(at + 3)
            } else {
                directory_present(uid, replies, at) is Fails
            }
        }),
        at == replies.len() ==> directory_private(paths, parent, replies, at) == Flow::<()>::Asks(
            FileAction::SetMode(Place::RuntimeDir, 448),
        ),
        directory_private(paths, parent, replies, at) is Gives <==> {
            &&& at + 1 < replies.len()
            &&& replies[at] is Done
            &&& replies[at + 1] matches FileReply::Path(path) && unix_path::outline(path@)
                == unix_path::outline(paths.runtime_dir) && unix_path::parent_outline(
                unix_path::outline(path@),
            ) == Some(unix_path::outline(parent))
        },
{
}

/// The answers of a check of one artifact's place that found everything in order.
pub open spec fn child_answers(paths: PathsContent, replies: Seq<FileReply>, at: int) -> bool {
    &&& directory_answers(paths, replies, at)
    &&& at + 2 < replies.len()
    &&& replies[at + 2] matches FileReply::Path(path) && unix_path::outline(path@)
        == unix_path::outline(paths.runtime_dir)
}

/// A runtime directory of the user's below the temporary root is taken over: it
/// becomes private, and the paths carry its device and inode.
pub proof fn sound_directories_are_set_up(
    id: &ServerId,
    uid: u32,
    replies: &[FileReply],
    r: Flow<DaemonPaths>,
    root: Vec<u8>,
    directory: FileFacts,
)
    requires
        call_ensures(DaemonPaths::from_runtime_parent, (id, uid, replies), r),
        valid_server_id(id.0@),
        replies@.len() > 15,
        replies@[0] == FileReply::Path(root),
        replies@[1] matches FileReply::Facts(parent) && parent.kind is Directory,
        replies@[2] matches FileReply::Facts(found) && found.kind is Directory && found.uid == uid,
        replies@[3] is Done,
        ({
            let paths = paths_below(
                root@,
                id.0@,
                uid,
                ArtifactIdentity { device: directory.device, inode: directory.inode },
            );
            &&& replies@[4] matches FileReply::Path(path) && unix_path::outline(path@)
                == unix_path::outline(paths.runtime_dir) && unix_path::parent_outline(
                unix_path::outline(path@),
            ) == Some(unix_path::outline(root@))
            &&& replies@[5] == FileReply::Facts(directory)
            &&& directory_answers(paths, replies@, 5)
            &&& child_answers(paths, replies@, 7)
            &&& child_answers(paths, replies@, 10)
            &&& child_answers(paths, replies@, 13)
        }),
    ensures
        r matches Flow::Gives(found) && {
            &&& found.uid == uid
            &&& found.runtime_identity.device == directory.device
            &&& found.runtime_identity.inode == directory.inode
            &&& found.runtime_dir@ == unix_path::below(
                root@,
                utf8("mcp-cli-"@ + text::decimal(uid as nat)),
            )
            &&& found.socket@ == unix_path::below(found.runtime_dir@, utf8(id.0@) + utf8(".sock"@))
            &&& found.pid@ == unix_path::below(found.runtime_dir@, utf8(id.0@) + utf8(".pid"@))
            &&& found.lock@ == unix_path::below(found.runtime_dir@, utf8(id.0@) + utf8(".lock"@))
        },
{
    let identity = ArtifactIdentity { device: directory.device, inode: directory.inode };
    artifacts_stay_in_the_runtime_directory(root@, id.0@, uid, identity, Place::Socket);
    artifacts_stay_in_the_runtime_directory(root@, id.0@, uid, identity, Place::Pid);
    artifacts_stay_in_the_runtime_directory(root@, id.0@, uid, identity, Place::Lock);
}

/// While the runtime directory is set up, every place already has its path.
pub proof fn places_are_located_during_set_up(
    place: Place,
    root: &[u8],
    id: &ServerId,
    uid: u32,
    replies: &[FileReply],
    r: Vec<u8>,
    resolved: Vec<u8>,
)
    requires
        call_ensures(locate_during_set_up, (place, root, id, uid, replies), r),
        replies@.len() > 0,
        replies@[0] == FileReply::Path(resolved),
    ensures
        place is Identifier ==> r@ == utf8(id.0@),
        place is TemporaryRoot ==> r@ == root@,
        place is Parent ==> r@ == resolved@,
        ({
            let directory = unix_path::below(
                resolved@,
                utf8("mcp-cli-"@ + text::decimal(uid as nat)),
            );
            &&& place is RuntimeDir ==> r@ == directory
            &&& place is Socket ==> r@ == unix_path::below(directory, utf8(id.0@) + utf8(".sock"@))
            &&& place is Pid ==> r@ == unix_path::below(directory, utf8(id.0@) + utf8(".pid"@))
            &&& place is Lock ==> r@ == unix_path::below(directory, utf8(id.0@) + utf8(".lock"@))
        }),
{
}

} // verus!
