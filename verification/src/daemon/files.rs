//! The questions that the daemon asks of the file system, and the answers.
//!
//! A check that needs the file system is a function of the answers so far. It
//! asks its next question, gives its result, or fails; the caller performs what
//! is asked, appends the answer, and calls again.

use vstd::prelude::*;

verus! {

/// The type of a directory entry.
#[derive(Clone, Copy, Debug, PartialEq, Eq, Structural)]
pub enum FileKind {
    Regular,
    Directory,
    Socket,
    Symlink,
    Other,
}

/// What one inspection of a directory entry shows.
#[derive(Clone, Copy, Debug, PartialEq, Eq, Structural)]
pub struct FileFacts {
    pub kind: FileKind,
    pub uid: u32,
    pub mode: u32,
    pub device: u64,
    pub inode: u64,
    pub length: u64,
}

/// Device/inode identity captured when a worker takes ownership of an
/// artifact. Shutdown uses this token to avoid unlinking a path replaced by
/// another process after publication.
#[derive(Clone, Copy, Debug, PartialEq, Eq, Structural)]
pub struct ArtifactIdentity {
    pub device: u64,
    pub inode: u64,
}

pub open spec fn identity_of(facts: FileFacts) -> ArtifactIdentity {
    ArtifactIdentity { device: facts.device, inode: facts.inode }
}

impl ArtifactIdentity {
    pub fn from_facts(facts: FileFacts) -> (r: Self)
        ensures
            r == identity_of(facts),
    {
        ArtifactIdentity { device: facts.device, inode: facts.inode }
    }

    pub fn matches(self, facts: FileFacts) -> (r: bool)
        ensures
            r == (identity_of(facts) == self),
    {
        facts.device == self.device && facts.inode == self.inode
    }
}

/// Whether two inspections show the same entry.
pub fn same_file(first: FileFacts, second: FileFacts) -> (r: bool)
    ensures
        r == (identity_of(first) == identity_of(second)),
{
    first.device == second.device && first.inode == second.inode
}

/// The paths that the daemon's checks speak of.
#[derive(Clone, Copy, Debug, PartialEq, Eq, Structural)]
pub enum Place {
    /// The identifier from which the artifact names are made.
    Identifier,
    /// The temporary root as it was configured.
    TemporaryRoot,
    /// The temporary root with every symbolic link resolved.
    Parent,
    RuntimeDir,
    Socket,
    Pid,
    Lock,
    /// The file that becomes the PID metadata by a rename.
    Temporary,
    /// The source of unpredictable bytes.
    Randomness,
    /// The directory in which the kernel shows one process.
    ProcessDir,
    ProcessStat,
    ProcessStatus,
    ProcessArguments,
    /// The link to the program that a process runs.
    ProcessExecutable,
    /// The statistics of the whole system.
    SystemStat,
}

/// One piece of work at the file system.
#[derive(Clone, Copy, Debug, PartialEq, Eq, Structural)]
pub enum FileAction {
    /// Look at an entry without following a symbolic link.
    Inspect(Place),
    /// Look at what a path leads to.
    Follow(Place),
    /// Resolve every symbolic link in a path.
    Resolve(Place),
    CreateDirectory(Place),
    SetMode(Place, u32),
    Remove(Place),
    /// Draw unpredictable bytes for a temporary name.
    DrawNonce,
    /// Create the temporary file, which must not exist, with a mode.
    CreateTemporary(u32),
    /// Write the metadata in its stored form into the temporary file.
    WriteTemporary,
    FlushTemporary,
    SyncTemporary,
    /// Look at the opened file itself.
    InspectOpened(Place),
    /// The last moment before the rename.
    BeforeRename,
    /// Rename the temporary file to the PID metadata.
    Publish,
    SyncDirectory(Place),
    Open(Place),
    /// Read at most this many bytes from the opened file.
    ReadOpened(usize),
    /// Check that no object of the JSON text in the answer with this number
    /// names a member twice.
    CheckNames(usize),
    /// Create the lock file, which must not exist, with a mode.
    CreateLock(u32),
    /// Make the lock file private, write the process identifier into it, and
    /// bring it to the disk.
    FillLock,
    /// Bind the listening socket.
    BindSocket,
    /// Read where a symbolic link leads.
    ReadLink(Place),
    /// Read a whole file, which must be UTF-8.
    ReadText(Place),
}

/// An answer to a [`FileAction`].
#[derive(Clone, Debug, PartialEq, Eq)]
pub enum FileReply {
    Done,
    Facts(FileFacts),
    Path(Vec<u8>),
    Bytes(Vec<u8>),
    /// There is no such entry.
    Missing,
    /// There is such an entry already.
    Exists,
    Failed,
}

/// Why a check did not pass.
#[derive(Clone, Copy, Debug, PartialEq, Eq)]
pub enum PathFault {
    Unsafe { place: Place, reason: &'static str },
    Io { operation: &'static str, place: Place },
}

/// How far a check has come.
#[derive(Clone, Debug, PartialEq, Eq)]
pub enum Flow<T> {
    Asks(FileAction),
    Gives(T),
    Fails(PathFault),
}

/// An answer that shows an entry, or a failure of the operation.
pub open spec fn shown(
    replies: Seq<FileReply>,
    at: int,
    action: FileAction,
    operation: &'static str,
    place: Place,
) -> Flow<FileFacts> {
    if at >= replies.len() {
        Flow::Asks(action)
    } else {
        match replies[at] {
            FileReply::Facts(facts) => Flow::Gives(facts),
            _ => Flow::Fails(PathFault::Io { operation, place }),
        }
    }
}

pub fn show(
    replies: &[FileReply],
    at: usize,
    action: FileAction,
    operation: &'static str,
    place: Place,
) -> (r: Flow<FileFacts>)
    ensures
        r == shown(replies@, at as int, action, operation, place),
{
    if at >= replies.len() {
        return Flow::Asks(action);
    }
    match &replies[at] {
        FileReply::Facts(facts) => Flow::Gives(*facts),
        _ => Flow::Fails(PathFault::Io { operation, place }),
    }
}

/// An answer that shows an entry or its absence.
pub open spec fn shown_if_present(
    replies: Seq<FileReply>,
    at: int,
    place: Place,
    operation: &'static str,
) -> Flow<Option<FileFacts>> {
    if at >= replies.len() {
        Flow::Asks(FileAction::Inspect(place))
    } else {
        match replies[at] {
            FileReply::Facts(facts) => Flow::Gives(Some(facts)),
            FileReply::Missing => Flow::Gives(None),
            _ => Flow::Fails(PathFault::Io { operation, place }),
        }
    }
}

pub fn show_if_present(
    replies: &[FileReply],
    at: usize,
    place: Place,
    operation: &'static str,
) -> (r: Flow<Option<FileFacts>>)
    ensures
        r == shown_if_present(replies@, at as int, place, operation),
{
    if at >= replies.len() {
        return Flow::Asks(FileAction::Inspect(place));
    }
    match &replies[at] {
        FileReply::Facts(facts) => Flow::Gives(Some(*facts)),
        FileReply::Missing => Flow::Gives(None),
        _ => Flow::Fails(PathFault::Io { operation, place }),
    }
}

/// Work without a result.
pub open spec fn performed(
    replies: Seq<FileReply>,
    at: int,
    action: FileAction,
    operation: &'static str,
    place: Place,
) -> Flow<()> {
    if at >= replies.len() {
        Flow::Asks(action)
    } else {
        match replies[at] {
            FileReply::Done => Flow::Gives(()),
            _ => Flow::Fails(PathFault::Io { operation, place }),
        }
    }
}

pub fn perform(
    replies: &[FileReply],
    at: usize,
    action: FileAction,
    operation: &'static str,
    place: Place,
) -> (r: Flow<()>)
    ensures
        r == performed(replies@, at as int, action, operation, place),
{
    if at >= replies.len() {
        return Flow::Asks(action);
    }
    match &replies[at] {
        FileReply::Done => Flow::Gives(()),
        _ => Flow::Fails(PathFault::Io { operation, place }),
    }
}

/// Two entries are the same file exactly where device and inode agree.
pub proof fn files_are_told_apart_by_device_and_inode(
    first: FileFacts,
    second: FileFacts,
    same: bool,
    identity: ArtifactIdentity,
    matched: bool,
)
    requires
        call_ensures(same_file, (first, second), same),
        call_ensures(ArtifactIdentity::from_facts, (first,), identity),
        call_ensures(ArtifactIdentity::matches, (identity, second), matched),
    ensures
        same <==> first.device == second.device && first.inode == second.inode,
        identity.device == first.device,
        identity.inode == first.inode,
        matched == same,
{
}

/// A step asks for its action until there is an answer, and takes only an answer
/// of its own kind.
pub proof fn steps_wait_for_their_answer(
    replies: &[FileReply],
    at: usize,
    action: FileAction,
    operation: &'static str,
    place: Place,
    shows: Flow<FileFacts>,
    finds: Flow<Option<FileFacts>>,
    does: Flow<()>,
    facts: FileFacts,
)
    requires
        call_ensures(show, (replies, at, action, operation, place), shows),
        call_ensures(show_if_present, (replies, at, place, operation), finds),
        call_ensures(perform, (replies, at, action, operation, place), does),
    ensures
        at >= replies@.len() ==> shows == Flow::<FileFacts>::Asks(action) && finds == Flow::<
            Option<FileFacts>,
        >::Asks(FileAction::Inspect(place)) && does == Flow::<()>::Asks(action),
        at < replies@.len() ==> {
            &&& shows == Flow::Gives(facts) <==> replies@[at as int] == FileReply::Facts(facts)
            &&& finds == Flow::Gives(Some(facts)) <==> replies@[at as int] == FileReply::Facts(
                facts,
            )
            &&& finds == Flow::Gives(None::<FileFacts>) <==> replies@[at as int] is Missing
            &&& does is Gives <==> replies@[at as int] is Done
            &&& replies@[at as int] !is Facts ==> shows == Flow::<FileFacts>::Fails(
                PathFault::Io { operation, place },
            )
            &&& replies@[at as int] !is Facts && replies@[at as int] !is Missing ==> finds
                == Flow::<Option<FileFacts>>::Fails(PathFault::Io { operation, place })
            &&& replies@[at as int] !is Done ==> does == Flow::<()>::Fails(
                PathFault::Io { operation, place },
            )
        },
{
}

} // verus!
