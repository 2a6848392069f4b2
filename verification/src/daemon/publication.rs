//! What publications of PID metadata leave on a disk, and what reads find there.

use vstd::prelude::*;

use crate::daemon::files;
use crate::daemon::files::{FileAction, FileFacts, FileReply, Place};
use crate::daemon::metadata;
use crate::daemon::metadata::{
    MetadataFlow, PID_METADATA_MAX_BYTES, STORE_ANSWERS, TEMP_CREATE_ATTEMPTS,
};
use crate::daemon::paths;
use crate::daemon::paths::PRIVATE_FILE_MODE;
use crate::daemon::stored_form;
use crate::daemon::stored_form::PidContent;
use crate::json;
use crate::json::Json;

verus! {

/// A file: what an inspection shows, and the bytes in it.
#[verifier::ext_equal]
pub struct Entry {
    pub facts: FileFacts,
    pub bytes: Seq<u8>,
}

impl Entry {
    /// What an inspection shows; the length is that of the bytes.
    pub open spec fn shown(self) -> FileFacts {
        FileFacts { length: self.bytes.len() as u64, ..self.facts }
    }
}

/// The part of a disk that PID metadata touches.
#[verifier::ext_equal]
pub struct Disk {
    pub temporary: Option<Entry>,
    pub pid: Option<Entry>,
    /// The file that is open for reading.
    pub opened: Option<Entry>,
}

/// The operations on PID metadata.
pub enum Operation {
    Write(PidContent),
    Read,
}

/// What an operation asks for after some answers.
pub open spec fn asked(
    paths: paths::PathsContent,
    operation: Operation,
    replies: Seq<FileReply>,
) -> Option<FileAction> {
    match operation {
        Operation::Write(content) => match metadata::written(paths, content, replies) {
            MetadataFlow::Asks(action) => Some(action),
            _ => None,
        },
        Operation::Read => match metadata::loaded(paths, replies) {
            MetadataFlow::Asks(action) => Some(action),
            _ => None,
        },
    }
}

/// The disk after an action that was answered.
pub open spec fn changed(
    disk: Disk,
    operation: Operation,
    action: FileAction,
    reply: FileReply,
) -> Disk {
    match (action, reply) {
        // What the new file shows is known once it was inspected.
        (FileAction::CreateTemporary(_), FileReply::Done) => Disk {
            temporary: Some(Entry { facts: arbitrary(), bytes: Seq::empty() }),
            ..disk
        },
        (FileAction::WriteTemporary, FileReply::Done) => match (disk.temporary, operation) {
            (Some(entry), Operation::Write(content)) => Disk {
                temporary: Some(
                    Entry { bytes: entry.bytes + stored_form::stored_form(content), ..entry },
                ),
                ..disk
            },
            _ => disk,
        },
        (FileAction::InspectOpened(Place::Temporary), FileReply::Facts(facts)) => match disk.temporary {
            Some(entry) => Disk { temporary: Some(Entry { facts, ..entry }), ..disk },
            None => disk,
        },
        (FileAction::Publish, FileReply::Done) => Disk {
            pid: disk.temporary,
            temporary: None,
            ..disk
        },
        (FileAction::Open(Place::Pid), FileReply::Done) => Disk { opened: disk.pid, ..disk },
        _ => disk,
    }
}

/// The text was made of members that all have different names.
pub open spec fn named_once(text: Seq<u8>) -> bool {
    exists|members: Seq<(Seq<char>, Json)>|
        json::distinct_members(members) && text == #[trigger] json::json_object_text(members)
}

/// The answer tells how the disk is, and how the text of an earlier answer is.
pub open spec fn truthful(
    disk: Disk,
    action: FileAction,
    replies: Seq<FileReply>,
    reply: FileReply,
) -> bool {
    match action {
        FileAction::CheckNames(answer) => (replies[answer as int] matches FileReply::Bytes(text)
            && named_once(text@)) ==> reply == FileReply::Done,
        FileAction::Inspect(Place::Pid) => match disk.pid {
            Some(entry) => reply == FileReply::Facts(entry.shown()),
            None => reply == FileReply::Missing,
        },
        FileAction::Open(Place::Pid) => disk.pid is Some ==> reply == FileReply::Done,
        FileAction::InspectOpened(Place::Pid) => disk.opened matches Some(entry) ==> reply
            == FileReply::Facts(entry.shown()),
        FileAction::ReadOpened(most) => disk.opened matches Some(entry) ==> (reply matches
            FileReply::Bytes(bytes) && bytes@ == (if entry.bytes.len() <= most {
            entry.bytes
        } else {
            entry.bytes.take(most as int)
        })),
        _ => true,
    }
}

/// The disk after the answers of an operation.
pub open spec fn disk_after(
    paths: paths::PathsContent,
    operation: Operation,
    replies: Seq<FileReply>,
    start: Disk,
) -> Disk
    decreases replies.len(),
{
    if replies.len() == 0 {
        start
    } else {
        let earlier = replies.drop_last();
        let before = disk_after(paths, operation, earlier, start);
        match asked(paths, operation, earlier) {
            Some(action) => changed(before, operation, action, replies.last()),
            None => before,
        }
    }
}

/// Every answer was asked for, and tells how the disk is at that point; nothing
/// but the operation changes the disk meanwhile.
pub open spec fn performed(
    paths: paths::PathsContent,
    operation: Operation,
    replies: Seq<FileReply>,
    start: Disk,
) -> bool
    decreases replies.len(),
{
    replies.len() == 0 || {
        let earlier = replies.drop_last();
        &&& performed(paths, operation, earlier, start)
        &&& asked(paths, operation, earlier) matches Some(action) && truthful(
            disk_after(paths, operation, earlier, start),
            action,
            earlier,
            replies.last(),
        )
    }
}

proof fn lemma_prefix_performed(
    paths: paths::PathsContent,
    operation: Operation,
    replies: Seq<FileReply>,
    start: Disk,
    k: int,
)
    requires
        performed(paths, operation, replies, start),
        0 <= k <= replies.len(),
    ensures
        performed(paths, operation, replies.take(k), start),
    decreases replies.len(),
{
    if k == replies.len() {
        assert(replies.take(k) =~= replies);
    } else {
        lemma_prefix_performed(paths, operation, replies.drop_last(), start, k);
        assert(replies.drop_last().take(k) =~= replies.take(k));
    }
}

/// One answer of an operation.
proof fn lemma_answer(
    paths: paths::PathsContent,
    operation: Operation,
    replies: Seq<FileReply>,
    start: Disk,
    k: int,
)
    requires
        performed(paths, operation, replies, start),
        0 <= k < replies.len(),
    ensures
        asked(paths, operation, replies.take(k)) matches Some(action) && {
            &&& truthful(
                disk_after(paths, operation, replies.take(k), start),
                action,
                replies.take(k),
                replies[k],
            )
            &&& disk_after(paths, operation, replies.take(k + 1), start) == changed(
                disk_after(paths, operation, replies.take(k), start),
                operation,
                action,
                replies[k],
            )
        },
{
    lemma_prefix_performed(paths, operation, replies, start, k + 1);
    assert(replies.take(k + 1).drop_last() =~= replies.take(k));
}

proof fn lemma_created_prefix(
    paths: paths::PathsContent,
    replies: Seq<FileReply>,
    at: int,
    attempts: nat,
    next: int,
)
    requires
        0 <= at,
        metadata::temporary_created(paths, replies, at, attempts) == MetadataFlow::Gives(next),
    ensures
        at + 2 <= next <= replies.len(),
        replies[next - 1] == FileReply::Done,
        metadata::temporary_created(paths, replies.take(next - 1), at, attempts)
            == MetadataFlow::<int>::Asks(FileAction::CreateTemporary(PRIVATE_FILE_MODE)),
        forall|k: int|
            next <= k <= replies.len() ==> #[trigger] metadata::temporary_created(
                paths,
                replies.take(k),
                at,
                attempts,
            ) == MetadataFlow::Gives(next),
    decreases attempts,
{
    if attempts > 0 {
        if replies[at + 1] == FileReply::Exists {
            lemma_created_prefix(paths, replies, at + 2, (attempts - 1) as nat, next);
            assert forall|k: int| next <= k <= replies.len() implies #[trigger] metadata::temporary_created(
                paths,
                replies.take(k),
                at,
                attempts,
            ) == MetadataFlow::Gives(next) by {
                assert(metadata::temporary_created(
                    paths,
                    replies.take(k),
                    at + 2,
                    (attempts - 1) as nat,
                ) == MetadataFlow::Gives(next));
            }
        }
    }
}

proof fn lemma_prepared_prefix(
    paths: paths::PathsContent,
    content: PidContent,
    replies: Seq<FileReply>,
    next: int,
)
    requires
        metadata::prepared(paths, content, replies) == MetadataFlow::Gives(next),
    ensures
        STORE_ANSWERS + 3 <= next <= replies.len(),
        replies[next - 1] == FileReply::Done,
        metadata::prepared(paths, content, replies.take(next - 1)) == MetadataFlow::<int>::Asks(
            FileAction::CreateTemporary(PRIVATE_FILE_MODE),
        ),
        forall|k: int|
            next <= k <= replies.len() ==> #[trigger] metadata::prepared(paths, content, replies.take(k))
                == MetadataFlow::Gives(next),
{
    lemma_created_prefix(paths, replies, 6, TEMP_CREATE_ATTEMPTS as nat, next);
    assert forall|k: int| next <= k <= replies.len() implies #[trigger] metadata::prepared(
        paths,
        content,
        replies.take(k),
    ) == MetadataFlow::Gives(next) by {
        assert(metadata::temporary_created(
            paths,
            replies.take(k),
            6,
            TEMP_CREATE_ATTEMPTS as nat,
        ) == MetadataFlow::Gives(next));
    }
}

/// What a successful publication asks for once the temporary file is there.
spec fn publication_action(j: int) -> FileAction {
    if j == 0 {
        FileAction::SetMode(Place::Temporary, PRIVATE_FILE_MODE)
    } else if j == 1 {
        FileAction::WriteTemporary
    } else if j == 2 {
        FileAction::FlushTemporary
    } else if j == 3 {
        FileAction::SyncTemporary
    } else if j == 4 {
        FileAction::InspectOpened(Place::Temporary)
    } else if j == 5 {
        FileAction::BeforeRename
    } else if j == 6 {
        FileAction::Inspect(Place::RuntimeDir)
    } else if j == 7 {
        FileAction::Resolve(Place::RuntimeDir)
    } else if j == 8 {
        FileAction::Inspect(Place::Pid)
    } else if j == 9 {
        FileAction::Publish
    } else if j == 10 {
        FileAction::Inspect(Place::Pid)
    } else {
        FileAction::SyncDirectory(Place::RuntimeDir)
    }
}

proof fn lemma_publication_asks(
    paths: paths::PathsContent,
    content: PidContent,
    replies: Seq<FileReply>,
    next: int,
    j: int,
)
    requires
        metadata::prepared(paths, content, replies) == MetadataFlow::Gives(next),
        metadata::written(paths, content, replies) == MetadataFlow::Gives(()),
        0 <= j <= 12,
    ensures
        replies.len() >= next + 12,
        0 <= j < 12 ==> asked(paths, Operation::Write(content), replies.take(next + j)) == Some(
            publication_action(j),
        ),
        j == 12 ==> asked(paths, Operation::Write(content), replies.take(next + j)) is None,
{
    lemma_prepared_prefix(paths, content, replies, next);
    assert(replies.len() >= next + 12);
    assert(metadata::prepared(paths, content, replies.take(next + j)) == MetadataFlow::Gives(next));
}

/// The publication has succeeded, and its temporary file was created with the
/// first `next` answers.
#[verifier::opaque]
spec fn succeeded(
    paths: paths::PathsContent,
    content: PidContent,
    replies: Seq<FileReply>,
    next: int,
) -> bool {
    &&& metadata::prepared(paths, content, replies) == MetadataFlow::Gives(next)
    &&& metadata::written(paths, content, replies) == MetadataFlow::Gives(())
}

/// What the answers of a successful publication have to be.
proof fn lemma_publication_answers(
    paths: paths::PathsContent,
    content: PidContent,
    replies: Seq<FileReply>,
    next: int,
)
    requires
        succeeded(paths, content, replies, next),
    ensures
        STORE_ANSWERS + 3 <= next,
        replies.len() >= next + 12,
        stored_form::stored_form(content).len() <= PID_METADATA_MAX_BYTES,
        replies[next - 1] == FileReply::Done,
        replies[next + 1] == FileReply::Done,
        replies[next + 4] is Facts,
        replies[next + 9] == FileReply::Done,
        replies[next + 10] matches FileReply::Facts(published) && metadata::file_fault(
            paths.uid,
            Place::Pid,
            published,
        ) is None && published.mode & paths::PERMISSION_BITS == PRIVATE_FILE_MODE,
{
    reveal(succeeded);
    lemma_prepared_prefix(paths, content, replies, next);
}

/// One step of a successful publication on the disk.
proof fn lemma_publication_step(
    paths: paths::PathsContent,
    content: PidContent,
    replies: Seq<FileReply>,
    start: Disk,
    next: int,
    j: int,
)
    requires
        succeeded(paths, content, replies, next),
        performed(paths, Operation::Write(content), replies, start),
        -1 <= j < 12,
        next + 12 <= replies.len(),
        0 < next,
    ensures
        ({
            let action = if j < 0 {
                FileAction::CreateTemporary(PRIVATE_FILE_MODE)
            } else {
                publication_action(j)
            };
            let before = disk_after(paths, Operation::Write(content), replies.take(next + j), start);
            &&& truthful(before, action, replies.take(next + j), replies[next + j])
            &&& disk_after(paths, Operation::Write(content), replies.take(next + j + 1), start) == changed(
                before,
                Operation::Write(content),
                action,
                replies[next + j],
            )
        }),
{
    lemma_answer(paths, Operation::Write(content), replies, start, next + j);
    reveal(succeeded);
    if j < 0 {
        lemma_prepared_prefix(paths, content, replies, next);
    } else {
        lemma_publication_asks(paths, content, replies, next, j);
    }
}

/// The disk on the way of a successful publication.
spec fn on_the_way(
    content: PidContent,
    replies: Seq<FileReply>,
    next: int,
    j: int,
    disk: Disk,
) -> bool {
    let entry = if j < 10 {
        disk.temporary
    } else {
        disk.pid
    };
    &&& j >= 10 ==> disk.temporary is None
    &&& entry is Some
    &&& entry->0.bytes == (if j < 2 {
        Seq::<u8>::empty()
    } else {
        stored_form::stored_form(content)
    })
    &&& j >= 5 ==> entry->0.facts == replies[next + 4]->Facts_0
}

proof fn lemma_on_the_way(
    paths: paths::PathsContent,
    content: PidContent,
    replies: Seq<FileReply>,
    start: Disk,
    next: int,
    j: int,
)
    requires
        succeeded(paths, content, replies, next),
        performed(paths, Operation::Write(content), replies, start),
        0 <= j <= 12,
    ensures
        on_the_way(
            content,
            replies,
            next,
            j,
            disk_after(paths, Operation::Write(content), replies.take(next + j), start),
        ),
    decreases j,
{
    lemma_publication_answers(paths, content, replies, next);
    lemma_publication_step(paths, content, replies, start, next, j - 1);
    if j > 0 {
        lemma_on_the_way(paths, content, replies, start, next, j - 1);
        let bytes = stored_form::stored_form(content);
        assert(Seq::<u8>::empty() + bytes =~= bytes);
    }
}

/// A successful publication leaves the file that it filled as the PID file: it
/// holds the metadata in its stored form, and it is the private regular file of the
/// current user that was inspected before the rename.
pub proof fn publications_leave_the_metadata(
    paths: paths::PathsContent,
    content: PidContent,
    replies: Seq<FileReply>,
    start: Disk,
)
    requires
        metadata::written(paths, content, replies) == MetadataFlow::Gives(()),
        performed(paths, Operation::Write(content), replies, start),
    ensures
        ({
            let disk = disk_after(paths, Operation::Write(content), replies, start);
            &&& disk.temporary is None
            &&& disk.pid matches Some(entry)
            &&& entry.bytes == stored_form::stored_form(content)
            &&& entry.bytes.len() <= PID_METADATA_MAX_BYTES
            &&& metadata::prepared(paths, content, replies) matches MetadataFlow::Gives(next)
            &&& replies[next + 4] == FileReply::Facts(entry.facts)
            &&& metadata::file_fault(paths.uid, Place::Pid, entry.shown()) is None
            &&& entry.facts.mode & paths::PERMISSION_BITS == PRIVATE_FILE_MODE
        }),
{
    let next = metadata::prepared(paths, content, replies)->Gives_0;
    assert(succeeded(paths, content, replies, next)) by {
        reveal(succeeded);
    }
    lemma_publication_answers(paths, content, replies, next);
    lemma_publication_asks(paths, content, replies, next, 12);
    if replies.len() > next + 12 {
        lemma_answer(paths, Operation::Write(content), replies, start, next + 12);
    }
    assert(replies.take(next + 12) =~= replies);
    lemma_on_the_way(paths, content, replies, start, next, 12);
    lemma_on_the_way(paths, content, replies, start, next, 10);
    lemma_publication_step(paths, content, replies, start, next, 10);
}

/// Before the PID file is looked at, a read only looks at the directory.
proof fn lemma_store_asks(paths: paths::PathsContent, replies: Seq<FileReply>, k: int)
    requires
        metadata::store_checked(paths, replies) == MetadataFlow::Gives(()),
        0 <= k < STORE_ANSWERS,
    ensures
        replies.len() >= STORE_ANSWERS,
        asked(paths, Operation::Read, replies.take(k)) matches Some(action) && (action is Inspect
            || action is Resolve),
{
}

proof fn lemma_disk_at_store(
    paths: paths::PathsContent,
    replies: Seq<FileReply>,
    start: Disk,
    k: int,
)
    requires
        metadata::store_checked(paths, replies) == MetadataFlow::Gives(()),
        performed(paths, Operation::Read, replies, start),
        0 <= k <= STORE_ANSWERS,
    ensures
        disk_after(paths, Operation::Read, replies.take(k), start) == start,
    decreases k,
{
    if k > 0 {
        lemma_disk_at_store(paths, replies, start, k - 1);
        lemma_store_asks(paths, replies, k - 1);
        lemma_answer(paths, Operation::Read, replies, start, k - 1);
    } else {
        assert(replies.take(0).len() == 0);
    }
}

/// What a read asks for once the directory is in order and the PID file showed
/// to be `entry`.
proof fn lemma_read_answers(
    paths: paths::PathsContent,
    replies: Seq<FileReply>,
    start: Disk,
    entry: Entry,
)
    requires
        metadata::store_checked(paths, replies) == MetadataFlow::Gives(()),
        performed(paths, Operation::Read, replies, start),
        !(metadata::loaded(paths, replies) is Asks),
        start.pid == Some(entry),
        entry.bytes.len() <= PID_METADATA_MAX_BYTES,
        metadata::file_fault(paths.uid, Place::Pid, entry.shown()) is None,
    ensures
        replies.len() >= 10,
        replies[5] == FileReply::Facts(entry.shown()),
        replies[6] == FileReply::Done,
        replies[7] == FileReply::Facts(entry.shown()),
        replies[8] matches FileReply::Bytes(bytes) && bytes@ == entry.bytes,
        replies[9] == FileReply::Facts(entry.shown()),
        stored_form::decoded(entry.bytes) is Some && named_once(entry.bytes) ==> replies.len() > 10
            && replies[10] == FileReply::Done,
{
    lemma_store_asks(paths, replies, 0);
    lemma_disk_at_store(paths, replies, start, 5);
    lemma_answer(paths, Operation::Read, replies, start, 5);
    assert(asked(paths, Operation::Read, replies.take(5)) == Some(
        FileAction::Inspect(Place::Pid),
    ));
    assert(replies[5] == FileReply::Facts(entry.shown()));
    lemma_answer(paths, Operation::Read, replies, start, 6);
    assert(asked(paths, Operation::Read, replies.take(6)) == Some(FileAction::Open(Place::Pid)));
    assert(replies[6] == FileReply::Done);
    lemma_answer(paths, Operation::Read, replies, start, 7);
    assert(asked(paths, Operation::Read, replies.take(7)) == Some(
        FileAction::InspectOpened(Place::Pid),
    ));
    assert(replies[7] == FileReply::Facts(entry.shown()));
    lemma_answer(paths, Operation::Read, replies, start, 8);
    assert(asked(paths, Operation::Read, replies.take(8)) == Some(
        FileAction::ReadOpened((PID_METADATA_MAX_BYTES + 1) as usize),
    ));
    assert(replies[8] matches FileReply::Bytes(bytes) && bytes@ == entry.bytes);
    lemma_answer(paths, Operation::Read, replies, start, 9);
    assert(asked(paths, Operation::Read, replies.take(9)) == Some(
        FileAction::Inspect(Place::Pid),
    ));
    if stored_form::decoded(entry.bytes) is Some && named_once(entry.bytes) {
        lemma_answer(paths, Operation::Read, replies, start, 10);
        assert(asked(paths, Operation::Read, replies.take(10)) == Some(
            FileAction::CheckNames(8),
        ));
        assert(replies.take(10)[8] == replies[8]);
    }
}

/// What was written is read: after a successful publication, a read on the disk
/// as the publication left it gives the metadata that was handed to the write,
/// and the identity of the file that was inspected before the rename. That the
/// stored form reads as the document it was made of is what a successful
/// [`metadata::MetadataStore::write`] ensures.
pub proof fn reads_give_back_what_was_written(
    paths: paths::PathsContent,
    content: PidContent,
    write_replies: Seq<FileReply>,
    read_replies: Seq<FileReply>,
    start: Disk,
)
    requires
        content.config_hash.len() == 32,
        stored_form::proper_time(content.started_at),
        stored_form::reads_as(content),
        metadata::written(paths, content, write_replies) == MetadataFlow::Gives(()),
        performed(paths, Operation::Write(content), write_replies, start),
        performed(
            paths,
            Operation::Read,
            read_replies,
            disk_after(paths, Operation::Write(content), write_replies, start),
        ),
        metadata::store_checked(paths, read_replies) == MetadataFlow::Gives(()),
        !(metadata::loaded(paths, read_replies) is Asks),
    ensures
        metadata::loaded(paths, read_replies) matches MetadataFlow::Gives(found) && {
            &&& found.metadata == content
            &&& metadata::prepared(paths, content, write_replies) matches MetadataFlow::Gives(next)
            &&& write_replies[next + 4] matches FileReply::Facts(temporary)
            &&& found.identity == files::identity_of(temporary)
        },
{
    publications_leave_the_metadata(paths, content, write_replies, start);
    stored_form::metadata_survives_its_document(content);
    let disk = disk_after(paths, Operation::Write(content), write_replies, start);
    assert(named_once(stored_form::stored_form(content)));
    lemma_read_answers(paths, read_replies, disk, disk.pid->0);
}

} // verus!
