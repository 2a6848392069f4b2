//! Atomic, bounded, and owner-validated Unix daemon PID metadata.

use vstd::prelude::*;

use crate::config;
use crate::config::{hex_text, ConfigHash};
use crate::daemon::files;
use crate::daemon::files::{
    perform, same_file, show, show_if_present, ArtifactIdentity, FileAction, FileFacts, FileReply,
    Flow, PathFault, Place,
};
use crate::daemon::paths;
use crate::daemon::paths::{
    check_child, check_runtime_dir, validate_artifact_metadata, ArtifactKind, DaemonPathError,
    DaemonPaths, PERMISSION_BITS, PRIVATE_FILE_MODE, RUNTIME_DIR_ANSWERS,
};
use crate::daemon::stored_form;
use crate::daemon::stored_form::PidContent;
use crate::policy::redact;
use crate::text;
use crate::text::{decimal_text, is_utf8};
use crate::time::SystemTime;
use crate::unix_path;
use crate::unix_path::{file_name_of, join_path};

verus! {

/// Hard ceiling for PID metadata, including malformed input.
pub const PID_METADATA_MAX_BYTES: usize = 16_384;

pub const TEMP_CREATE_ATTEMPTS: usize = 32;

/// Persisted daemon process identity.
#[derive(Clone, Copy, Debug, PartialEq, Eq)]
pub struct PidMetadata {
    pub pid: u32,
    pub config_hash: ConfigHash,
    pub started_at: SystemTime,
}

/// Errors from secure metadata publication, loading, and removal. The cause of
/// an I/O or decoding failure stays with the caller.
#[derive(Clone, Debug, PartialEq, Eq)]
pub enum MetadataError {
    UnsafePath(DaemonPathError),
    Io { operation: &'static str, path: Vec<u8> },
    TooLarge { limit: usize },
    InvalidJson,
}

impl MetadataError {
    pub fn display_text(&self) -> (r: String)
        ensures
            r@ == (match *self {
                MetadataError::UnsafePath(DaemonPathError::Unsafe { path, reason }) =>
                    "unsafe daemon path "@ + redact::lossy_text(path@) + ": "@ + reason@,
                MetadataError::UnsafePath(DaemonPathError::Io { operation, path }) => "could not "@
                    + operation@ + " daemon path "@ + redact::lossy_text(path@),
                MetadataError::Io { operation, path } => "could not "@ + operation@
                    + " PID metadata "@ + redact::lossy_text(path@),
                MetadataError::TooLarge { limit } => "PID metadata exceeds "@ + text::decimal(
                    limit as nat,
                ) + " bytes"@,
                MetadataError::InvalidJson => "PID metadata is not valid JSON"@,
            }),
    {
        match self {
            MetadataError::UnsafePath(failure) => failure.display_text(),
            MetadataError::Io { operation, path } => {
                let mut shown = "could not ".to_owned();
                shown.append(operation);
                shown.append(" PID metadata ");
                shown.append(redact::lossy(path.as_slice()).as_str());
                shown
            },
            MetadataError::TooLarge { limit } => {
                let mut shown = "PID metadata exceeds ".to_owned();
                shown.append(decimal_text(*limit as u128).as_str());
                shown.append(" bytes");
                shown
            },
            MetadataError::InvalidJson => "PID metadata is not valid JSON".to_owned(),
        }
    }
}

/// Why a metadata operation did not succeed.
#[derive(Clone, Copy, Debug, PartialEq, Eq)]
pub enum MetadataFault {
    Path(PathFault),
    Io { operation: &'static str, place: Place },
    TooLarge { limit: usize },
    InvalidJson,
}

/// How far a metadata operation has come.
#[derive(Clone, Debug, PartialEq, Eq)]
pub enum MetadataFlow<T> {
    Asks(FileAction),
    Gives(T),
    Fails(MetadataFault),
}

/// A failure of the operation itself, as opposed to one of a path check.
pub open spec fn own_fault(fault: PathFault) -> MetadataFault {
    match fault {
        PathFault::Io { operation, place } => MetadataFault::Io { operation, place },
        PathFault::Unsafe { place, reason } => MetadataFault::Path(fault),
    }
}

/// A path check as part of a metadata operation.
pub open spec fn path_check<T>(check: Flow<T>) -> MetadataFlow<T> {
    match check {
        Flow::Asks(action) => MetadataFlow::Asks(action),
        Flow::Gives(value) => MetadataFlow::Gives(value),
        Flow::Fails(fault) => MetadataFlow::Fails(MetadataFault::Path(fault)),
    }
}

/// A step of a metadata operation.
pub open spec fn own_step<T>(step: Flow<T>) -> MetadataFlow<T> {
    match step {
        Flow::Asks(action) => MetadataFlow::Asks(action),
        Flow::Gives(value) => MetadataFlow::Gives(value),
        Flow::Fails(fault) => MetadataFlow::Fails(own_fault(fault)),
    }
}

fn as_path_check<T>(check: Flow<T>) -> (r: MetadataFlow<T>)
    ensures
        r == path_check(check),
{
    match check {
        Flow::Asks(action) => MetadataFlow::Asks(action),
        Flow::Gives(value) => MetadataFlow::Gives(value),
        Flow::Fails(fault) => MetadataFlow::Fails(MetadataFault::Path(fault)),
    }
}

fn as_own_step<T>(step: Flow<T>) -> (r: MetadataFlow<T>)
    ensures
        r == own_step(step),
{
    match step {
        Flow::Asks(action) => MetadataFlow::Asks(action),
        Flow::Gives(value) => MetadataFlow::Gives(value),
        Flow::Fails(PathFault::Io { operation, place }) => MetadataFlow::Fails(
            MetadataFault::Io { operation, place },
        ),
        Flow::Fails(fault) => MetadataFlow::Fails(MetadataFault::Path(fault)),
    }
}

/// Why an entry is not private PID metadata.
pub open spec fn file_fault(uid: u32, place: Place, facts: FileFacts) -> Option<MetadataFault> {
    match paths::artifact_flaw(facts, uid, ArtifactKind::RegularFile, true) {
        Some(reason) => Some(MetadataFault::Path(PathFault::Unsafe { place, reason })),
        None => None,
    }
}

fn find_file_fault(uid: u32, place: Place, facts: FileFacts) -> (r: Option<MetadataFault>)
    ensures
        r == file_fault(uid, place, facts),
{
    match validate_artifact_metadata(facts, uid, ArtifactKind::RegularFile, true) {
        Some(reason) => Some(MetadataFault::Path(PathFault::Unsafe { place, reason })),
        None => None,
    }
}

/// Looks at an entry that must be private PID metadata.
pub open spec fn file_shown(
    uid: u32,
    replies: Seq<FileReply>,
    at: int,
    action: FileAction,
    operation: &'static str,
    place: Place,
) -> MetadataFlow<FileFacts> {
    match own_step(files::shown(replies, at, action, operation, place)) {
        MetadataFlow::Gives(facts) => match file_fault(uid, place, facts) {
            Some(fault) => MetadataFlow::Fails(fault),
            None => MetadataFlow::Gives(facts),
        },
        other => other,
    }
}

fn show_file(
    uid: u32,
    replies: &[FileReply],
    at: usize,
    action: FileAction,
    operation: &'static str,
    place: Place,
) -> (r: MetadataFlow<FileFacts>)
    ensures
        r == file_shown(uid, replies@, at as int, action, operation, place),
{
    match as_own_step(show(replies, at, action, operation, place)) {
        MetadataFlow::Gives(facts) => match find_file_fault(uid, place, facts) {
            Some(fault) => MetadataFlow::Fails(fault),
            None => MetadataFlow::Gives(facts),
        },
        other => other,
    }
}

pub open spec fn replaced() -> MetadataFault {
    MetadataFault::Path(
        PathFault::Unsafe {
            place: Place::Pid,
            reason: "PID metadata was replaced during validation",
        },
    )
}

/// Checks the runtime directory and the name of the PID file.
pub open spec fn store_checked(paths: paths::PathsContent, replies: Seq<FileReply>) -> MetadataFlow<
    (),
> {
    match path_check(
        paths::runtime_dir_checked(paths, Some(paths.runtime_identity), replies, 0),
    ) {
        MetadataFlow::Asks(action) => MetadataFlow::Asks(action),
        MetadataFlow::Fails(fault) => MetadataFlow::Fails(fault),
        MetadataFlow::Gives(_) => path_check(
            paths::child_checked(paths, Place::Pid, replies, RUNTIME_DIR_ANSWERS as int),
        ),
    }
}

/// The number of answers that [`store_checked`] needs to pass.
pub const STORE_ANSWERS: usize = 5;

fn check_store(paths: &DaemonPaths, replies: &[FileReply]) -> (r: MetadataFlow<()>)
    ensures
        r == store_checked(paths@, replies@),
{
    match as_path_check(check_runtime_dir(paths, Some(paths.runtime_identity), replies, 0)) {
        MetadataFlow::Asks(action) => MetadataFlow::Asks(action),
        MetadataFlow::Fails(fault) => MetadataFlow::Fails(fault),
        MetadataFlow::Gives(_) => as_path_check(
            check_child(paths, Place::Pid, replies, RUNTIME_DIR_ANSWERS),
        ),
    }
}

/// The stored bytes of metadata and the identity of the file that held them.
#[derive(Clone, Debug, PartialEq, Eq)]
pub struct StoredMetadata {
    pub bytes: Vec<u8>,
    pub identity: ArtifactIdentity,
}

/// The content of [`StoredMetadata`].
pub struct StoredContent {
    pub bytes: Seq<u8>,
    pub identity: ArtifactIdentity,
}

/// Metadata and the identity of the file that held it.
#[derive(Clone, Copy, Debug, PartialEq, Eq)]
pub struct LoadedMetadata {
    pub metadata: PidMetadata,
    pub identity: ArtifactIdentity,
}

/// The content of [`LoadedMetadata`].
#[verifier::ext_equal]
pub struct LoadedContent {
    pub metadata: PidContent,
    pub identity: ArtifactIdentity,
}

impl View for LoadedMetadata {
    type V = LoadedContent;

    open spec fn view(&self) -> LoadedContent {
        LoadedContent { metadata: self.metadata@, identity: self.identity }
    }
}

/// Reads the stored bytes without following symlinks. The opened file's inode
/// is compared before and after the bounded read to detect swaps.
pub open spec fn stored(paths: paths::PathsContent, replies: Seq<FileReply>) -> MetadataFlow<
    StoredContent,
> {
    let place = Place::Pid;
    let at = STORE_ANSWERS as int;
    match store_checked(paths, replies) {
        MetadataFlow::Asks(action) => MetadataFlow::Asks(action),
        MetadataFlow::Fails(fault) => MetadataFlow::Fails(fault),
        MetadataFlow::Gives(()) => match file_shown(
            paths.uid,
            replies,
            at,
            FileAction::Inspect(place),
            "inspect",
            place,
        ) {
            MetadataFlow::Asks(action) => MetadataFlow::Asks(action),
            MetadataFlow::Fails(fault) => MetadataFlow::Fails(fault),
            MetadataFlow::Gives(before) => if before.length > PID_METADATA_MAX_BYTES {
                MetadataFlow::Fails(MetadataFault::TooLarge { limit: PID_METADATA_MAX_BYTES })
            } else {
                stored_after(paths, before, replies, at + 1)
            },
        },
    }
}

/// The part of a read behind the first inspection.
pub open spec fn stored_after(
    paths: paths::PathsContent,
    before: FileFacts,
    replies: Seq<FileReply>,
    at: int,
) -> MetadataFlow<StoredContent> {
    let place = Place::Pid;
    match own_step(files::performed(replies, at, FileAction::Open(place), "open", place)) {
        MetadataFlow::Asks(action) => MetadataFlow::Asks(action),
        MetadataFlow::Fails(fault) => MetadataFlow::Fails(fault),
        MetadataFlow::Gives(()) => match file_shown(
            paths.uid,
            replies,
            at + 1,
            FileAction::InspectOpened(place),
            "inspect opened",
            place,
        ) {
            MetadataFlow::Asks(action) => MetadataFlow::Asks(action),
            MetadataFlow::Fails(fault) => MetadataFlow::Fails(fault),
            MetadataFlow::Gives(opened) => if files::identity_of(before) != files::identity_of(
                opened,
            ) {
                MetadataFlow::Fails(replaced())
            } else {
                stored_bytes(paths, opened, replies, at + 2)
            },
        },
    }
}

/// The part of a read behind the inspection of the opened file.
pub open spec fn stored_bytes(
    paths: paths::PathsContent,
    opened: FileFacts,
    replies: Seq<FileReply>,
    at: int,
) -> MetadataFlow<StoredContent> {
    let place = Place::Pid;
    if at >= replies.len() {
        MetadataFlow::Asks(FileAction::ReadOpened((PID_METADATA_MAX_BYTES + 1) as usize))
    } else {
        match replies[at] {
            FileReply::Bytes(bytes) => if bytes@.len() > PID_METADATA_MAX_BYTES {
                MetadataFlow::Fails(MetadataFault::TooLarge { limit: PID_METADATA_MAX_BYTES })
            } else {
                match file_shown(
                    paths.uid,
                    replies,
                    at + 1,
                    FileAction::Inspect(place),
                    "reinspect",
                    place,
                ) {
                    MetadataFlow::Asks(action) => MetadataFlow::Asks(action),
                    MetadataFlow::Fails(fault) => MetadataFlow::Fails(fault),
                    MetadataFlow::Gives(after) => if files::identity_of(opened)
                        != files::identity_of(after) {
                        MetadataFlow::Fails(replaced())
                    } else {
                        MetadataFlow::Gives(
                            StoredContent {
                                bytes: bytes@,
                                identity: files::identity_of(after),
                            },
                        )
                    },
                }
            },
            _ => MetadataFlow::Fails(MetadataFault::Io { operation: "read", place }),
        }
    }
}

/// The number of the answer that holds the stored bytes.
pub const BYTES_ANSWER: usize = 8;

/// The number of the answer about the names in the stored bytes.
pub const NAMES_ANSWER: usize = 10;

/// Reads and decodes the stored metadata. A parsed document does not show that
/// a name was given twice, so the bytes are checked for that apart.
pub open spec fn loaded(paths: paths::PathsContent, replies: Seq<FileReply>) -> MetadataFlow<
    LoadedContent,
> {
    match stored(paths, replies) {
        MetadataFlow::Asks(action) => MetadataFlow::Asks(action),
        MetadataFlow::Fails(fault) => MetadataFlow::Fails(fault),
        MetadataFlow::Gives(content) => match stored_form::decoded(content.bytes) {
            Some(metadata) => if NAMES_ANSWER >= replies.len() {
                MetadataFlow::Asks(FileAction::CheckNames(BYTES_ANSWER))
            } else if replies[NAMES_ANSWER as int] == FileReply::Done {
                MetadataFlow::Gives(LoadedContent { metadata, identity: content.identity })
            } else {
                MetadataFlow::Fails(MetadataFault::InvalidJson)
            },
            None => MetadataFlow::Fails(MetadataFault::InvalidJson),
        },
    }
}

/// The progress shows what the model says.
pub open spec fn reads(
    progress: MetadataFlow<StoredMetadata>,
    model: MetadataFlow<StoredContent>,
) -> bool {
    match model {
        MetadataFlow::Asks(action) => progress matches MetadataFlow::Asks(asked) && asked == action,
        MetadataFlow::Fails(fault) => progress matches MetadataFlow::Fails(failed) && failed
            == fault,
        MetadataFlow::Gives(content) => progress matches MetadataFlow::Gives(found)
            && found.bytes@ == content.bytes && found.identity == content.identity,
    }
}

fn replaced_fault() -> (r: MetadataFault)
    ensures
        r == replaced(),
{
    MetadataFault::Path(
        PathFault::Unsafe {
            place: Place::Pid,
            reason: "PID metadata was replaced during validation",
        },
    )
}

fn read_bytes(paths: &DaemonPaths, opened: FileFacts, replies: &[FileReply], at: usize) -> (r:
    MetadataFlow<StoredMetadata>)
    requires
        at + 1 <= usize::MAX,
    ensures
        reads(r, stored_bytes(paths@, opened, replies@, at as int)),
{
    let place = Place::Pid;
    if at >= replies.len() {
        return MetadataFlow::Asks(FileAction::ReadOpened(PID_METADATA_MAX_BYTES + 1));
    }
    let bytes = match &replies[at] {
        FileReply::Bytes(bytes) => bytes,
        _ => return MetadataFlow::Fails(MetadataFault::Io { operation: "read", place }),
    };
    if bytes.len() > PID_METADATA_MAX_BYTES {
        return MetadataFlow::Fails(MetadataFault::TooLarge { limit: PID_METADATA_MAX_BYTES });
    }
    let after = match show_file(
        paths.uid,
        replies,
        at + 1,
        FileAction::Inspect(place),
        "reinspect",
        place,
    ) {
        MetadataFlow::Asks(action) => return MetadataFlow::Asks(action),
        MetadataFlow::Fails(fault) => return MetadataFlow::Fails(fault),
        MetadataFlow::Gives(after) => after,
    };
    if !same_file(opened, after) {
        return MetadataFlow::Fails(replaced_fault());
    }
    MetadataFlow::Gives(
        StoredMetadata {
            bytes: vstd::slice::slice_to_vec(bytes.as_slice()),
            identity: ArtifactIdentity::from_facts(after),
        },
    )
}

fn read_after(paths: &DaemonPaths, before: FileFacts, replies: &[FileReply], at: usize) -> (r:
    MetadataFlow<StoredMetadata>)
    requires
        at + 3 <= usize::MAX,
    ensures
        reads(r, stored_after(paths@, before, replies@, at as int)),
{
    let place = Place::Pid;
    match as_own_step(perform(replies, at, FileAction::Open(place), "open", place)) {
        MetadataFlow::Asks(action) => return MetadataFlow::Asks(action),
        MetadataFlow::Fails(fault) => return MetadataFlow::Fails(fault),
        MetadataFlow::Gives(()) => {},
    }
    let opened = match show_file(
        paths.uid,
        replies,
        at + 1,
        FileAction::InspectOpened(place),
        "inspect opened",
        place,
    ) {
        MetadataFlow::Asks(action) => return MetadataFlow::Asks(action),
        MetadataFlow::Fails(fault) => return MetadataFlow::Fails(fault),
        MetadataFlow::Gives(opened) => opened,
    };
    if !same_file(before, opened) {
        return MetadataFlow::Fails(replaced_fault());
    }
    read_bytes(paths, opened, replies, at + 2)
}

/// Secure storage for one server's PID metadata file.
#[derive(Clone, Debug, PartialEq, Eq)]
pub struct MetadataStore {
    paths: DaemonPaths,
}

impl View for MetadataStore {
    type V = paths::PathsContent;

    closed spec fn view(&self) -> paths::PathsContent {
        self.paths@
    }
}

impl MetadataStore {
    pub fn new(paths: DaemonPaths) -> (r: Self)
        ensures
            r@ == paths@,
    {
        MetadataStore { paths }
    }

    pub fn paths(&self) -> (r: &DaemonPaths)
        ensures
            r@ == self@,
    {
        &self.paths
    }

    fn read_stored(&self, replies: &[FileReply]) -> (r: MetadataFlow<StoredMetadata>)
        ensures
            reads(r, stored(self@, replies@)),
    {
        let paths = &self.paths;
        let place = Place::Pid;
        match check_store(paths, replies) {
            MetadataFlow::Asks(action) => return MetadataFlow::Asks(action),
            MetadataFlow::Fails(fault) => return MetadataFlow::Fails(fault),
            MetadataFlow::Gives(()) => {},
        }
        let before = match show_file(
            paths.uid,
            replies,
            STORE_ANSWERS,
            FileAction::Inspect(place),
            "inspect",
            place,
        ) {
            MetadataFlow::Asks(action) => return MetadataFlow::Asks(action),
            MetadataFlow::Fails(fault) => return MetadataFlow::Fails(fault),
            MetadataFlow::Gives(before) => before,
        };
        if before.length > PID_METADATA_MAX_BYTES as u64 {
            return MetadataFlow::Fails(MetadataFault::TooLarge { limit: PID_METADATA_MAX_BYTES });
        }
        read_after(paths, before, replies, STORE_ANSWERS + 1)
    }

    /// Reads metadata and returns the exact validated inode identity used for
    /// later race-resistant cleanup.
    pub fn read_with_identity(&self, replies: &[FileReply]) -> (r: MetadataFlow<LoadedMetadata>)
        ensures
            match loaded(self@, replies@) {
                MetadataFlow::Asks(action) => r matches MetadataFlow::Asks(asked) && asked
                    == action,
                MetadataFlow::Fails(fault) => r matches MetadataFlow::Fails(failed) && failed
                    == fault,
                MetadataFlow::Gives(content) => r matches MetadataFlow::Gives(found) && found@
                    == content,
            },
    {
        let found = match self.read_stored(replies) {
            MetadataFlow::Asks(action) => return MetadataFlow::Asks(action),
            MetadataFlow::Fails(fault) => return MetadataFlow::Fails(fault),
            MetadataFlow::Gives(found) => found,
        };
        let metadata = match PidMetadata::from_json(found.bytes.as_slice()) {
            Some(metadata) => metadata,
            None => return MetadataFlow::Fails(MetadataFault::InvalidJson),
        };
        if NAMES_ANSWER >= replies.len() {
            return MetadataFlow::Asks(FileAction::CheckNames(BYTES_ANSWER));
        }
        match &replies[NAMES_ANSWER] {
            FileReply::Done => MetadataFlow::Gives(
                LoadedMetadata { metadata, identity: found.identity },
            ),
            _ => MetadataFlow::Fails(MetadataFault::InvalidJson),
        }
    }

    /// Reads and parses metadata without following symlinks. The opened file's
    /// inode is compared before and after the bounded read to detect swaps.
    pub fn read(&self, replies: &[FileReply]) -> (r: MetadataFlow<PidMetadata>)
        ensures
            match loaded(self@, replies@) {
                MetadataFlow::Asks(action) => r matches MetadataFlow::Asks(asked) && asked
                    == action,
                MetadataFlow::Fails(fault) => r matches MetadataFlow::Fails(failed) && failed
                    == fault,
                MetadataFlow::Gives(content) => r matches MetadataFlow::Gives(found) && found@
                    == content.metadata,
            },
    {
        match self.read_with_identity(replies) {
            MetadataFlow::Asks(action) => MetadataFlow::Asks(action),
            MetadataFlow::Fails(fault) => MetadataFlow::Fails(fault),
            MetadataFlow::Gives(found) => MetadataFlow::Gives(found.metadata),
        }
    }

    /// Removes metadata only after revalidating path, type, owner, mode, and
    /// runtime directory identity. Missing metadata is a successful no-op.
    pub fn remove(&self, replies: &[FileReply]) -> (r: MetadataFlow<bool>)
        ensures
            r == path_check(paths::removed(self@, Place::Pid, None, true, replies@)),
    {
        as_path_check(self.paths.remove_private_pid(replies))
    }
}

/// The number of random bytes in a temporary name.
pub const RANDOM_NONCE_BYTES: usize = 16;

/// The name of a temporary file beside the PID file.
pub open spec fn temporary_name(basename: Seq<u8>, nonce: Seq<u8>) -> Seq<u8> {
    paths::utf8("."@) + basename + paths::utf8(".tmp-"@) + paths::utf8(config::hex_of(nonce))
}

/// Why the PID path cannot name a temporary file.
pub open spec fn basename_fault(paths: paths::PathsContent) -> Option<MetadataFault> {
    let fault = MetadataFault::Path(
        PathFault::Unsafe {
            place: Place::Pid,
            reason: "PID metadata basename is not valid UTF-8",
        },
    );
    match unix_path::file_name(paths.pid) {
        Some(name) => if vstd::utf8::valid_utf8(name) {
            None
        } else {
            Some(fault)
        },
        None => Some(fault),
    }
}

fn find_basename_fault(paths: &DaemonPaths) -> (r: Option<MetadataFault>)
    ensures
        r == basename_fault(paths@),
{
    let fault = MetadataFault::Path(
        PathFault::Unsafe {
            place: Place::Pid,
            reason: "PID metadata basename is not valid UTF-8",
        },
    );
    match file_name_of(paths.pid.as_slice()) {
        Some(name) => if is_utf8(name.as_slice()) {
            None
        } else {
            Some(fault)
        },
        None => Some(fault),
    }
}

/// Creates a temporary file under an unpredictable name, with as many attempts
/// as are left. Gives the number of answers that were used.
pub open spec fn temporary_created(
    paths: paths::PathsContent,
    replies: Seq<FileReply>,
    at: int,
    attempts: nat,
) -> MetadataFlow<int>
    decreases attempts,
{
    if attempts == 0 {
        MetadataFlow::Fails(
            MetadataFault::Io { operation: "create unique temporary", place: Place::Pid },
        )
    } else if at >= replies.len() {
        MetadataFlow::Asks(FileAction::DrawNonce)
    } else if !(replies[at] matches FileReply::Bytes(nonce) && nonce@.len()
        == RANDOM_NONCE_BYTES) {
        MetadataFlow::Fails(
            MetadataFault::Io { operation: "read randomness from", place: Place::Randomness },
        )
    } else if basename_fault(paths) is Some {
        MetadataFlow::Fails(basename_fault(paths)->0)
    } else if at + 1 >= replies.len() {
        MetadataFlow::Asks(FileAction::CreateTemporary(PRIVATE_FILE_MODE))
    } else {
        match replies[at + 1] {
            FileReply::Done => MetadataFlow::Gives(at + 2),
            FileReply::Exists => temporary_created(paths, replies, at + 2, (attempts - 1) as nat),
            _ => MetadataFlow::Fails(
                MetadataFault::Io { operation: "create temporary", place: Place::Temporary },
            ),
        }
    }
}

/// Checks what a publication would replace.
pub open spec fn target_checked(
    paths: paths::PathsContent,
    replies: Seq<FileReply>,
    at: int,
) -> MetadataFlow<()> {
    match own_step(files::shown_if_present(replies, at, Place::Pid, "inspect")) {
        MetadataFlow::Asks(action) => MetadataFlow::Asks(action),
        MetadataFlow::Fails(fault) => MetadataFlow::Fails(fault),
        MetadataFlow::Gives(None) => MetadataFlow::Gives(()),
        MetadataFlow::Gives(Some(facts)) => match file_fault(paths.uid, Place::Pid, facts) {
            Some(fault) => MetadataFlow::Fails(fault),
            None => MetadataFlow::Gives(()),
        },
    }
}

/// One piece of work on the temporary file.
pub open spec fn temporary_step(
    replies: Seq<FileReply>,
    at: int,
    action: FileAction,
    operation: &'static str,
) -> MetadataFlow<()> {
    own_step(files::performed(replies, at, action, operation, Place::Temporary))
}

/// Fills the temporary file and brings it to the disk.
pub open spec fn temporary_filled(
    paths: paths::PathsContent,
    replies: Seq<FileReply>,
    at: int,
) -> MetadataFlow<FileFacts> {
    let mode = FileAction::SetMode(Place::Temporary, PRIVATE_FILE_MODE);
    match temporary_step(replies, at, mode, "set permissions on") {
        MetadataFlow::Asks(action) => MetadataFlow::Asks(action),
        MetadataFlow::Fails(fault) => MetadataFlow::Fails(fault),
        MetadataFlow::Gives(()) => match temporary_step(
            replies,
            at + 1,
            FileAction::WriteTemporary,
            "write",
        ) {
            MetadataFlow::Asks(action) => MetadataFlow::Asks(action),
            MetadataFlow::Fails(fault) => MetadataFlow::Fails(fault),
            MetadataFlow::Gives(()) => match temporary_step(
                replies,
                at + 2,
                FileAction::FlushTemporary,
                "flush",
            ) {
                MetadataFlow::Asks(action) => MetadataFlow::Asks(action),
                MetadataFlow::Fails(fault) => MetadataFlow::Fails(fault),
                MetadataFlow::Gives(()) => match temporary_step(
                    replies,
                    at + 3,
                    FileAction::SyncTemporary,
                    "sync",
                ) {
                    MetadataFlow::Asks(action) => MetadataFlow::Asks(action),
                    MetadataFlow::Fails(fault) => MetadataFlow::Fails(fault),
                    MetadataFlow::Gives(()) => file_shown(
                        paths.uid,
                        replies,
                        at + 4,
                        FileAction::InspectOpened(Place::Temporary),
                        "inspect",
                        Place::Temporary,
                    ),
                },
            },
        },
    }
}

/// Renames the temporary file to the PID file, after the runtime directory and
/// the target were checked once more.
pub open spec fn renamed(paths: paths::PathsContent, replies: Seq<FileReply>, at: int) ->
    MetadataFlow<()> {
    match temporary_step(replies, at, FileAction::BeforeRename, "prepare atomic rename for") {
        MetadataFlow::Asks(action) => MetadataFlow::Asks(action),
        MetadataFlow::Fails(fault) => MetadataFlow::Fails(fault),
        MetadataFlow::Gives(()) => match path_check(
            paths::runtime_dir_checked(paths, Some(paths.runtime_identity), replies, at + 1),
        ) {
            MetadataFlow::Asks(action) => MetadataFlow::Asks(action),
            MetadataFlow::Fails(fault) => MetadataFlow::Fails(fault),
            MetadataFlow::Gives(_) => match target_checked(paths, replies, at + 3) {
                MetadataFlow::Asks(action) => MetadataFlow::Asks(action),
                MetadataFlow::Fails(fault) => MetadataFlow::Fails(fault),
                MetadataFlow::Gives(()) => own_step(
                    files::performed(
                        replies,
                        at + 4,
                        FileAction::Publish,
                        "atomically rename",
                        Place::Pid,
                    ),
                ),
            },
        },
    }
}

/// Why a published file is not the temporary file that was validated.
pub open spec fn publication_fault(temporary: FileFacts, published: FileFacts) -> Option<
    MetadataFault,
> {
    if files::identity_of(published) != files::identity_of(temporary) || published.mode
        & PERMISSION_BITS != PRIVATE_FILE_MODE {
        Some(
            MetadataFault::Path(
                PathFault::Unsafe {
                    place: Place::Pid,
                    reason:
                        "published PID metadata did not retain the validated temporary file identity",
                },
            ),
        )
    } else {
        None
    }
}

/// Checks the published file and brings its directory entry to the disk.
pub open spec fn publication_checked(
    paths: paths::PathsContent,
    temporary: FileFacts,
    replies: Seq<FileReply>,
    at: int,
) -> MetadataFlow<()> {
    let place = Place::Pid;
    match file_shown(paths.uid, replies, at, FileAction::Inspect(place), "inspect", place) {
        MetadataFlow::Asks(action) => MetadataFlow::Asks(action),
        MetadataFlow::Fails(fault) => MetadataFlow::Fails(fault),
        MetadataFlow::Gives(published) => match publication_fault(temporary, published) {
            Some(fault) => MetadataFlow::Fails(fault),
            None => own_step(
                files::performed(
                    replies,
                    at + 1,
                    FileAction::SyncDirectory(Place::RuntimeDir),
                    "sync runtime directory for",
                    place,
                ),
            ),
        },
    }
}

/// Everything behind the creation of the temporary file.
pub open spec fn publication(paths: paths::PathsContent, replies: Seq<FileReply>, at: int) ->
    MetadataFlow<()> {
    match temporary_filled(paths, replies, at) {
        MetadataFlow::Asks(action) => MetadataFlow::Asks(action),
        MetadataFlow::Fails(fault) => MetadataFlow::Fails(fault),
        MetadataFlow::Gives(temporary) => match renamed(paths, replies, at + 5) {
            MetadataFlow::Asks(action) => MetadataFlow::Asks(action),
            MetadataFlow::Fails(fault) => MetadataFlow::Fails(fault),
            MetadataFlow::Gives(()) => publication_checked(paths, temporary, replies, at + 10),
        },
    }
}

/// The temporary file of a publication, up to its creation.
pub open spec fn prepared(
    paths: paths::PathsContent,
    metadata: PidContent,
    replies: Seq<FileReply>,
) -> MetadataFlow<int> {
    let at = STORE_ANSWERS as int;
    match store_checked(paths, replies) {
        MetadataFlow::Asks(action) => MetadataFlow::Asks(action),
        MetadataFlow::Fails(fault) => MetadataFlow::Fails(fault),
        MetadataFlow::Gives(()) => match target_checked(paths, replies, at) {
            MetadataFlow::Asks(action) => MetadataFlow::Asks(action),
            MetadataFlow::Fails(fault) => MetadataFlow::Fails(fault),
            MetadataFlow::Gives(()) => if stored_form::stored_form(metadata).len()
                > PID_METADATA_MAX_BYTES {
                MetadataFlow::Fails(MetadataFault::TooLarge { limit: PID_METADATA_MAX_BYTES })
            } else {
                temporary_created(paths, replies, at + 1, TEMP_CREATE_ATTEMPTS as nat)
            },
        },
    }
}

/// Publishes metadata atomically.
pub open spec fn written(
    paths: paths::PathsContent,
    metadata: PidContent,
    replies: Seq<FileReply>,
) -> MetadataFlow<()> {
    match prepared(paths, metadata, replies) {
        MetadataFlow::Asks(action) => MetadataFlow::Asks(action),
        MetadataFlow::Fails(fault) => MetadataFlow::Fails(fault),
        MetadataFlow::Gives(next) => publication(paths, replies, next),
    }
}

/// A temporary file was created and has not become the PID file.
pub open spec fn temporary_left(
    paths: paths::PathsContent,
    metadata: PidContent,
    replies: Seq<FileReply>,
) -> bool {
    prepared(paths, metadata, replies) matches MetadataFlow::Gives(next) && !(renamed(
        paths,
        replies,
        next + 5,
    ) is Gives && temporary_filled(paths, replies, next) is Gives)
}

fn create_temporary_file(paths: &DaemonPaths, replies: &[FileReply], start: usize) -> (r:
    MetadataFlow<usize>)
    requires
        start + 2 * TEMP_CREATE_ATTEMPTS <= usize::MAX,
    ensures
        match temporary_created(paths@, replies@, start as int, TEMP_CREATE_ATTEMPTS as nat) {
            MetadataFlow::Asks(action) => r matches MetadataFlow::Asks(asked) && asked == action,
            MetadataFlow::Fails(fault) => r matches MetadataFlow::Fails(failed) && failed == fault,
            MetadataFlow::Gives(next) => r matches MetadataFlow::Gives(found) && found == next
                && next <= start + 2 * TEMP_CREATE_ATTEMPTS,
        },
{
    let mut attempts: usize = TEMP_CREATE_ATTEMPTS;
    let mut at: usize = start;
    while attempts > 0
        invariant
            attempts <= TEMP_CREATE_ATTEMPTS,
            start + 2 * TEMP_CREATE_ATTEMPTS <= usize::MAX,
            at == start + 2 * (TEMP_CREATE_ATTEMPTS - attempts),
            temporary_created(paths@, replies@, start as int, TEMP_CREATE_ATTEMPTS as nat)
                == temporary_created(paths@, replies@, at as int, attempts as nat),
        decreases attempts,
    {
        if at >= replies.len() {
            return MetadataFlow::Asks(FileAction::DrawNonce);
        }
        let drawn = match &replies[at] {
            FileReply::Bytes(nonce) => nonce.len() == RANDOM_NONCE_BYTES,
            _ => false,
        };
        if !drawn {
            return MetadataFlow::Fails(
                MetadataFault::Io { operation: "read randomness from", place: Place::Randomness },
            );
        }
        if let Some(fault) = find_basename_fault(paths) {
            return MetadataFlow::Fails(fault);
        }
        if at + 1 >= replies.len() {
            return MetadataFlow::Asks(FileAction::CreateTemporary(PRIVATE_FILE_MODE));
        }
        match &replies[at + 1] {
            FileReply::Done => return MetadataFlow::Gives(at + 2),
            FileReply::Exists => {},
            _ => {
                return MetadataFlow::Fails(
                    MetadataFault::Io { operation: "create temporary", place: Place::Temporary },
                );
            },
        }
        at += 2;
        attempts -= 1;
    }
    MetadataFlow::Fails(
        MetadataFault::Io { operation: "create unique temporary", place: Place::Pid },
    )
}

fn validate_existing_target(paths: &DaemonPaths, replies: &[FileReply], at: usize) -> (r:
    MetadataFlow<()>)
    ensures
        r == target_checked(paths@, replies@, at as int),
{
    match as_own_step(show_if_present(replies, at, Place::Pid, "inspect")) {
        MetadataFlow::Asks(action) => MetadataFlow::Asks(action),
        MetadataFlow::Fails(fault) => MetadataFlow::Fails(fault),
        MetadataFlow::Gives(None) => MetadataFlow::Gives(()),
        MetadataFlow::Gives(Some(facts)) => match find_file_fault(paths.uid, Place::Pid, facts) {
            Some(fault) => MetadataFlow::Fails(fault),
            None => MetadataFlow::Gives(()),
        },
    }
}

fn work_on_temporary(
    replies: &[FileReply],
    at: usize,
    action: FileAction,
    operation: &'static str,
) -> (r: MetadataFlow<()>)
    ensures
        r == temporary_step(replies@, at as int, action, operation),
{
    as_own_step(perform(replies, at, action, operation, Place::Temporary))
}

fn fill_temporary(paths: &DaemonPaths, replies: &[FileReply], at: usize) -> (r: MetadataFlow<
    FileFacts,
>)
    requires
        at + 4 <= usize::MAX,
    ensures
        r == temporary_filled(paths@, replies@, at as int),
{
    let mode = FileAction::SetMode(Place::Temporary, PRIVATE_FILE_MODE);
    match work_on_temporary(replies, at, mode, "set permissions on") {
        MetadataFlow::Asks(action) => return MetadataFlow::Asks(action),
        MetadataFlow::Fails(fault) => return MetadataFlow::Fails(fault),
        MetadataFlow::Gives(()) => {},
    }
    match work_on_temporary(replies, at + 1, FileAction::WriteTemporary, "write") {
        MetadataFlow::Asks(action) => return MetadataFlow::Asks(action),
        MetadataFlow::Fails(fault) => return MetadataFlow::Fails(fault),
        MetadataFlow::Gives(()) => {},
    }
    match work_on_temporary(replies, at + 2, FileAction::FlushTemporary, "flush") {
        MetadataFlow::Asks(action) => return MetadataFlow::Asks(action),
        MetadataFlow::Fails(fault) => return MetadataFlow::Fails(fault),
        MetadataFlow::Gives(()) => {},
    }
    match work_on_temporary(replies, at + 3, FileAction::SyncTemporary, "sync") {
        MetadataFlow::Asks(action) => return MetadataFlow::Asks(action),
        MetadataFlow::Fails(fault) => return MetadataFlow::Fails(fault),
        MetadataFlow::Gives(()) => {},
    }
    show_file(
        paths.uid,
        replies,
        at + 4,
        FileAction::InspectOpened(Place::Temporary),
        "inspect",
        Place::Temporary,
    )
}

fn rename_temporary(paths: &DaemonPaths, replies: &[FileReply], at: usize) -> (r: MetadataFlow<()>)
    requires
        at + 4 <= usize::MAX,
    ensures
        r == renamed(paths@, replies@, at as int),
{
    match work_on_temporary(replies, at, FileAction::BeforeRename, "prepare atomic rename for") {
        MetadataFlow::Asks(action) => return MetadataFlow::Asks(action),
        MetadataFlow::Fails(fault) => return MetadataFlow::Fails(fault),
        MetadataFlow::Gives(()) => {},
    }
    match as_path_check(check_runtime_dir(paths, Some(paths.runtime_identity), replies, at + 1)) {
        MetadataFlow::Asks(action) => return MetadataFlow::Asks(action),
        MetadataFlow::Fails(fault) => return MetadataFlow::Fails(fault),
        MetadataFlow::Gives(_) => {},
    }
    match validate_existing_target(paths, replies, at + 3) {
        MetadataFlow::Asks(action) => return MetadataFlow::Asks(action),
        MetadataFlow::Fails(fault) => return MetadataFlow::Fails(fault),
        MetadataFlow::Gives(()) => {},
    }
    as_own_step(perform(replies, at + 4, FileAction::Publish, "atomically rename", Place::Pid))
}

fn check_publication(
    paths: &DaemonPaths,
    temporary: FileFacts,
    replies: &[FileReply],
    at: usize,
) -> (r: MetadataFlow<()>)
    requires
        at + 1 <= usize::MAX,
    ensures
        r == publication_checked(paths@, temporary, replies@, at as int),
{
    let place = Place::Pid;
    let published = match show_file(
        paths.uid,
        replies,
        at,
        FileAction::Inspect(place),
        "inspect",
        place,
    ) {
        MetadataFlow::Asks(action) => return MetadataFlow::Asks(action),
        MetadataFlow::Fails(fault) => return MetadataFlow::Fails(fault),
        MetadataFlow::Gives(published) => published,
    };
    if !same_file(published, temporary) || published.mode & PERMISSION_BITS != PRIVATE_FILE_MODE {
        return MetadataFlow::Fails(
            MetadataFault::Path(
                PathFault::Unsafe {
                    place,
                    reason:
                        "published PID metadata did not retain the validated temporary file identity",
                },
            ),
        );
    }
    as_own_step(
        perform(
            replies,
            at + 1,
            FileAction::SyncDirectory(Place::RuntimeDir),
            "sync runtime directory for",
            place,
        ),
    )
}

impl MetadataStore {
    fn prepare(&self, metadata: &PidMetadata, replies: &[FileReply]) -> (r: MetadataFlow<usize>)
        ensures
            match prepared(self@, metadata@, replies@) {
                MetadataFlow::Asks(action) => r matches MetadataFlow::Asks(asked) && asked
                    == action,
                MetadataFlow::Fails(fault) => r matches MetadataFlow::Fails(failed) && failed
                    == fault,
                MetadataFlow::Gives(next) => r matches MetadataFlow::Gives(found) && found == next
                    && next <= STORE_ANSWERS + 1 + 2 * TEMP_CREATE_ATTEMPTS,
            },
            r is Gives ==> stored_form::reads_as(metadata@),
    {
        let paths = &self.paths;
        match check_store(paths, replies) {
            MetadataFlow::Asks(action) => return MetadataFlow::Asks(action),
            MetadataFlow::Fails(fault) => return MetadataFlow::Fails(fault),
            MetadataFlow::Gives(()) => {},
        }
        match validate_existing_target(paths, replies, STORE_ANSWERS) {
            MetadataFlow::Asks(action) => return MetadataFlow::Asks(action),
            MetadataFlow::Fails(fault) => return MetadataFlow::Fails(fault),
            MetadataFlow::Gives(()) => {},
        }
        if metadata.to_json().len() > PID_METADATA_MAX_BYTES {
            return MetadataFlow::Fails(MetadataFault::TooLarge { limit: PID_METADATA_MAX_BYTES });
        }
        create_temporary_file(paths, replies, STORE_ANSWERS + 1)
    }

    /// Atomically publishes metadata using an unpredictable same-directory
    /// temporary file with mode 0600, followed by sync and rename.
    pub fn write(&self, metadata: &PidMetadata, replies: &[FileReply]) -> (r: MetadataFlow<()>)
        ensures
            r == written(self@, metadata@, replies@),
            r is Gives ==> stored_form::reads_as(metadata@),
    {
        let next = match self.prepare(metadata, replies) {
            MetadataFlow::Asks(action) => return MetadataFlow::Asks(action),
            MetadataFlow::Fails(fault) => return MetadataFlow::Fails(fault),
            MetadataFlow::Gives(next) => next,
        };
        let temporary = match fill_temporary(&self.paths, replies, next) {
            MetadataFlow::Asks(action) => return MetadataFlow::Asks(action),
            MetadataFlow::Fails(fault) => return MetadataFlow::Fails(fault),
            MetadataFlow::Gives(temporary) => temporary,
        };
        match rename_temporary(&self.paths, replies, next + 5) {
            MetadataFlow::Asks(action) => return MetadataFlow::Asks(action),
            MetadataFlow::Fails(fault) => return MetadataFlow::Fails(fault),
            MetadataFlow::Gives(()) => {},
        }
        check_publication(&self.paths, temporary, replies, next + 10)
    }

    /// Whether a publication that ends here has to remove its temporary file.
    pub fn leaves_temporary(&self, metadata: &PidMetadata, replies: &[FileReply]) -> (r: bool)
        ensures
            r == temporary_left(self@, metadata@, replies@),
    {
        let next = match self.prepare(metadata, replies) {
            MetadataFlow::Gives(next) => next,
            _ => return false,
        };
        let filled = match fill_temporary(&self.paths, replies, next) {
            MetadataFlow::Gives(_) => true,
            _ => false,
        };
        let published = match rename_temporary(&self.paths, replies, next + 5) {
            MetadataFlow::Gives(()) => true,
            _ => false,
        };
        !(filled && published)
    }

    /// The path of the temporary file that a nonce names.
    pub fn temporary_path(&self, nonce: &[u8]) -> (r: Option<Vec<u8>>)
        ensures
            match unix_path::file_name(self@.pid) {
                Some(basename) => r matches Some(path) && path@ == unix_path::below(
                    self@.runtime_dir,
                    temporary_name(basename, nonce@),
                ),
                None => r is None,
            },
    {
        let mut basename = match file_name_of(self.paths.pid.as_slice()) {
            Some(basename) => basename,
            None => return None,
        };
        let mut name = vstd::slice::slice_to_vec(".".as_bytes());
        name.append(&mut basename);
        let mut middle = vstd::slice::slice_to_vec(".tmp-".as_bytes());
        name.append(&mut middle);
        let digits = hex_text(nonce);
        let mut end = vstd::slice::slice_to_vec(digits.as_str().as_bytes());
        name.append(&mut end);
        Some(join_path(self.paths.runtime_dir.as_slice(), name.as_slice()))
    }
}

impl MetadataError {
    /// Names the path at which an operation failed.
    pub fn at(fault: MetadataFault, path: Vec<u8>) -> (r: Self)
        ensures
            r == (match fault {
                MetadataFault::Path(PathFault::Unsafe { place, reason }) =>
                    MetadataError::UnsafePath(DaemonPathError::Unsafe { path, reason }),
                MetadataFault::Path(PathFault::Io { operation, place }) =>
                    MetadataError::UnsafePath(DaemonPathError::Io { operation, path }),
                MetadataFault::Io { operation, place } => MetadataError::Io { operation, path },
                MetadataFault::TooLarge { limit } => MetadataError::TooLarge { limit },
                MetadataFault::InvalidJson => MetadataError::InvalidJson,
            }),
    {
        match fault {
            MetadataFault::Path(inner) => MetadataError::UnsafePath(
                DaemonPathError::at(inner, path),
            ),
            MetadataFault::Io { operation, place: _ } => MetadataError::Io { operation, path },
            MetadataFault::TooLarge { limit } => MetadataError::TooLarge { limit },
            MetadataFault::InvalidJson => MetadataError::InvalidJson,
        }
    }
}

/// Metadata is renamed into place only when its bytes fit and the temporary
/// file was seen to be a private regular file of the current user.
pub proof fn publications_follow_a_private_temporary_file(
    paths: paths::PathsContent,
    metadata: PidContent,
    replies: Seq<FileReply>,
)
    requires
        written(paths, metadata, replies) == MetadataFlow::<()>::Asks(FileAction::Publish),
    ensures
        stored_form::stored_form(metadata).len() <= PID_METADATA_MAX_BYTES,
        temporary_left(paths, metadata, replies),
        prepared(paths, metadata, replies) matches MetadataFlow::Gives(next) && (replies[next + 4] matches
            FileReply::Facts(facts) && file_fault(paths.uid, Place::Temporary, facts) is None),
{
    lemma_created_asks(paths, replies, 6, TEMP_CREATE_ATTEMPTS as nat);
}

proof fn lemma_created_asks(
    paths: paths::PathsContent,
    replies: Seq<FileReply>,
    at: int,
    attempts: nat,
)
    ensures
        temporary_created(paths, replies, at, attempts) matches MetadataFlow::Asks(action)
            ==> action == FileAction::DrawNonce || action == FileAction::CreateTemporary(
            PRIVATE_FILE_MODE,
        ),
    decreases attempts,
{
    if attempts > 0 {
        lemma_created_asks(paths, replies, at + 2, (attempts - 1) as nat);
    }
}

/// A publication that succeeds leaves the validated temporary file in place of
/// the PID file, readable and writable by its owner alone, and nothing else.
pub proof fn published_metadata_is_private(
    paths: paths::PathsContent,
    metadata: PidContent,
    replies: Seq<FileReply>,
)
    requires
        written(paths, metadata, replies) == MetadataFlow::Gives(()),
    ensures
        !temporary_left(paths, metadata, replies),
        prepared(paths, metadata, replies) matches MetadataFlow::Gives(next) && (replies[next + 4] matches
            FileReply::Facts(temporary) && (replies[next + 10] matches FileReply::Facts(published)
            && files::identity_of(published) == files::identity_of(temporary) && file_fault(
            paths.uid,
            Place::Pid,
            published,
        ) is None && published.mode & PERMISSION_BITS == PRIVATE_FILE_MODE)),
{
}

/// Metadata that others can reach is refused and stays where it is.
pub proof fn broad_metadata_is_not_removed(
    paths: paths::PathsContent,
    replies: Seq<FileReply>,
    facts: FileFacts,
)
    requires
        paths::child_checked(paths, Place::Pid, replies, 0) == Flow::Gives(()),
        replies.len() > paths::CHILD_ANSWERS,
        replies[paths::CHILD_ANSWERS as int] == FileReply::Facts(facts),
        facts.kind == files::FileKind::Regular,
        facts.uid == paths.uid,
        facts.mode & paths::FOREIGN_BITS != 0,
    ensures
        path_check(paths::removed(paths, Place::Pid, None, true, replies)) == MetadataFlow::<
            bool,
        >::Fails(
            MetadataFault::Path(
                PathFault::Unsafe {
                    place: Place::Pid,
                    reason: "daemon artifact permissions are broader than 0600",
                },
            ),
        ),
{
}

/// Metadata is given out only if three inspections around the read of its bytes
/// show one and the same private regular file of the current user.
pub proof fn reads_come_from_one_private_file(
    paths: paths::PathsContent,
    replies: Seq<FileReply>,
    content: LoadedContent,
)
    requires
        loaded(paths, replies) == MetadataFlow::Gives(content),
    ensures
        replies[8] matches FileReply::Bytes(bytes) && bytes@.len() <= PID_METADATA_MAX_BYTES
            && stored_form::decoded(bytes@) == Some(content.metadata),
        ({
            &&& replies[5] matches FileReply::Facts(before)
            &&& replies[7] matches FileReply::Facts(opened)
            &&& replies[9] matches FileReply::Facts(after)
            &&& file_fault(paths.uid, Place::Pid, before) is None
            &&& file_fault(paths.uid, Place::Pid, opened) is None
            &&& file_fault(paths.uid, Place::Pid, after) is None
            &&& files::identity_of(before) == content.identity
            &&& files::identity_of(opened) == content.identity
            &&& files::identity_of(after) == content.identity
        }),
{
}

/// The answers of a store whose directory is as it was and whose name is right.
pub open spec fn sound_store(paths: paths::PathsContent, replies: Seq<FileReply>) -> bool {
    &&& paths::child_fault(paths, Place::Pid) is None
    &&& paths::directory_answers(paths, replies, 0)
    &&& paths::directory_answers(paths, replies, 2)
    &&& replies.len() > 4
    &&& replies[4] matches FileReply::Path(path) && unix_path::outline(path@)
        == unix_path::outline(paths.runtime_dir)
}

/// A regular file of the user's on which nobody else has any permission.
pub open spec fn sound_file(paths: paths::PathsContent, reply: FileReply) -> bool {
    reply matches FileReply::Facts(facts) && facts.kind is Regular && facts.uid == paths.uid
        && facts.mode & 0o077 == 0
}

/// Two inspections that show the same file.
pub open spec fn same_entry(first: FileReply, second: FileReply) -> bool {
    &&& first matches FileReply::Facts(left)
    &&& second matches FileReply::Facts(right)
    &&& left.device == right.device
    &&& left.inode == right.inode
}

/// Metadata is read exactly where the file is private, stays the same while it is
/// read, holds at most 16384 bytes and is well-formed, with every name once.
pub proof fn sound_metadata_is_read(
    store: &MetadataStore,
    replies: &[FileReply],
    r: MetadataFlow<LoadedMetadata>,
)
    requires
        call_ensures(MetadataStore::read_with_identity, (store, replies), r),
        sound_store(store@, replies@),
        replies@.len() > 10,
    ensures
        r is Gives <==> {
            &&& sound_file(store@, replies@[5])
            &&& replies@[5]->Facts_0.length <= 16_384
            &&& replies@[6] is Done
            &&& sound_file(store@, replies@[7])
            &&& same_entry(replies@[5], replies@[7])
            &&& replies@[8] matches FileReply::Bytes(read) && read@.len() <= 16_384
                && stored_form::decoded(read@) is Some
            &&& sound_file(store@, replies@[9])
            &&& same_entry(replies@[7], replies@[9])
            &&& replies@[10] == FileReply::Done
        },
        r matches MetadataFlow::Gives(found) ==> {
            &&& stored_form::decoded(replies@[8]->Bytes_0@) == Some(found.metadata@)
            &&& found.identity.device == replies@[9]->Facts_0.device
            &&& found.identity.inode == replies@[9]->Facts_0.inode
        },
        sound_file(store@, replies@[5]) && replies@[5]->Facts_0.length > 16_384 ==> r
            == MetadataFlow::<LoadedMetadata>::Fails(MetadataFault::TooLarge { limit: 16_384 }),
        r !is Gives ==> r is Fails,
{
}

/// A publication goes to its end where the temporary file is created at once and
/// every step behind it succeeds; what is published is that file, with mode 0600.
pub proof fn undisturbed_publications_succeed(
    store: &MetadataStore,
    metadata: &PidMetadata,
    replies: &[FileReply],
    r: MetadataFlow<()>,
)
    requires
        call_ensures(MetadataStore::write, (store, metadata, replies), r),
        sound_store(store@, replies@),
        replies@.len() > 19,
        replies@[5] is Missing || sound_file(store@, replies@[5]),
        replies@[6] matches FileReply::Bytes(nonce) && nonce@.len() == 16,
        basename_fault(store@) is None,
        replies@[7] is Done,
    ensures
        r is Gives <==> {
            &&& stored_form::stored_form(metadata@).len() <= 16_384
            &&& replies@[8] is Done && replies@[9] is Done && replies@[10] is Done && replies@[11]
                is Done
            &&& sound_file(store@, replies@[12])
            &&& replies@[13] is Done
            &&& paths::directory_answers(store@, replies@, 14)
            &&& replies@[16] is Missing || sound_file(store@, replies@[16])
            &&& replies@[17] is Done
            &&& sound_file(store@, replies@[18])
            &&& same_entry(replies@[12], replies@[18])
            &&& replies@[18]->Facts_0.mode & 0o7777 == 0o600
            &&& replies@[19] is Done
        },
        r !is Gives ==> r is Fails,
        stored_form::stored_form(metadata@).len() > 16_384 ==> r == MetadataFlow::<()>::Fails(
            MetadataFault::TooLarge { limit: 16_384 },
        ),
{
}

/// A publication asks for its steps in order.
pub proof fn publications_ask_for_their_steps(
    store: &MetadataStore,
    metadata: &PidMetadata,
    replies: &[FileReply],
    r: MetadataFlow<()>,
)
    requires
        call_ensures(MetadataStore::write, (store, metadata, replies), r),
        sound_store(store@, replies@),
        stored_form::stored_form(metadata@).len() <= 16_384,
        basename_fault(store@) is None,
        replies@.len() > 5 ==> replies@[5] is Missing || sound_file(store@, replies@[5]),
        replies@.len() > 6 ==> (replies@[6] matches FileReply::Bytes(nonce) && nonce@.len() == 16),
        replies@.len() > 7 ==> replies@[7] is Done,
        replies@.len() > 8 ==> replies@[8] is Done,
        replies@.len() > 9 ==> replies@[9] is Done,
        replies@.len() > 10 ==> replies@[10] is Done,
        replies@.len() > 11 ==> replies@[11] is Done,
        replies@.len() > 12 ==> sound_file(store@, replies@[12]),
        replies@.len() > 13 ==> replies@[13] is Done,
    ensures
        replies@.len() == 5 ==> r == MetadataFlow::<()>::Asks(FileAction::Inspect(Place::Pid)),
        replies@.len() == 6 ==> r == MetadataFlow::<()>::Asks(FileAction::DrawNonce),
        replies@.len() == 7 ==> r == MetadataFlow::<()>::Asks(FileAction::CreateTemporary(384)),
        replies@.len() == 8 ==> r == MetadataFlow::<()>::Asks(
            FileAction::SetMode(Place::Temporary, 384),
        ),
        replies@.len() == 9 ==> r == MetadataFlow::<()>::Asks(FileAction::WriteTemporary),
        replies@.len() == 10 ==> r == MetadataFlow::<()>::Asks(FileAction::FlushTemporary),
        replies@.len() == 11 ==> r == MetadataFlow::<()>::Asks(FileAction::SyncTemporary),
        replies@.len() == 12 ==> r == MetadataFlow::<()>::Asks(
            FileAction::InspectOpened(Place::Temporary),
        ),
        replies@.len() == 13 ==> r == MetadataFlow::<()>::Asks(FileAction::BeforeRename),
        replies@.len() == 14 ==> r == MetadataFlow::<()>::Asks(
            FileAction::Inspect(Place::RuntimeDir),
        ),
{
}

/// A temporary file is tried under at most thirty-two names, a new one whenever
/// the last was taken.
pub proof fn temporary_names_are_tried_in_turn(
    paths: paths::PathsContent,
    replies: Seq<FileReply>,
    at: int,
    attempts: nat,
)
    requires
        0 <= at,
        at + 1 < replies.len(),
        basename_fault(paths) is None,
        replies[at] matches FileReply::Bytes(nonce) && nonce@.len() == 16,
    ensures
        TEMP_CREATE_ATTEMPTS == 32,
        attempts > 0 && replies[at + 1] is Done ==> temporary_created(paths, replies, at, attempts)
            == MetadataFlow::Gives(at + 2),
        attempts > 0 && replies[at + 1] is Exists ==> temporary_created(
            paths,
            replies,
            at,
            attempts,
        ) == temporary_created(paths, replies, at + 2, (attempts - 1) as nat),
        attempts > 0 && replies[at + 1] !is Done && replies[at + 1] !is Exists
            ==> temporary_created(paths, replies, at, attempts) is Fails,
        temporary_created(paths, replies, at, 0) is Fails,
{
}

/// A temporary file is named after the PID file: a dot, its name, `.tmp-` and the
/// nonce in hexadecimal.
pub proof fn temporary_files_are_named_after_the_target(
    store: &MetadataStore,
    nonce: &[u8],
    r: Option<Vec<u8>>,
    basename: Seq<u8>,
)
    requires
        call_ensures(MetadataStore::temporary_path, (store, nonce), r),
    ensures
        unix_path::file_name(store@.pid) is None <==> r is None,
        unix_path::file_name(store@.pid) == Some(basename) ==> (r matches Some(path) && path@
            == unix_path::below(
            store@.runtime_dir,
            paths::utf8("."@) + basename + paths::utf8(".tmp-"@) + paths::utf8(
                config::hex_of(nonce@),
            ),
        )),
{
}

} // verus!
