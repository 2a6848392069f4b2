//! Identity of daemon worker processes.

use vstd::prelude::*;

use crate::bytes;
use crate::bytes::{
    has_prefix, lines_of, parse_unsigned, split_bytes, words_of, Separator,
};
use crate::config::ConfigHash;
use crate::daemon::files;
use crate::daemon::files::{same_file, FileAction, FileFacts, FileKind, FileReply, Place};
use crate::daemon::metadata::PidMetadata;
use crate::text::{bytes_equal, is_utf8};
use crate::time;
use crate::time::SystemTime;
use crate::unix_path;
use crate::unix_path::is_absolute_and_normalized;

verus! {

/// The argument that makes a process a daemon worker.
pub const WORKER_ROLE: &'static str = "__daemon";

/// Why a process cannot be taken for the recorded worker. The cause of a failed
/// query stays with the caller.
#[derive(Clone, Copy, Debug, PartialEq, Eq)]
pub enum ProcessIdentityError {
    Security(&'static str),
    Query,
}

impl ProcessIdentityError {
    pub fn display_text(self) -> (r: String)
        ensures
            r@ == (match self {
                ProcessIdentityError::Security(reason) =>
                    "daemon process identity could not be verified: "@ + reason@,
                ProcessIdentityError::Query => "daemon process query failed"@,
            }),
    {
        match self {
            ProcessIdentityError::Security(reason) => {
                let mut shown = "daemon process identity could not be verified: ".to_owned();
                shown.append(reason);
                shown
            },
            ProcessIdentityError::Query => "daemon process query failed".to_owned(),
        }
    }
}

/// Stable process attributes used to bind PID metadata to one worker.
#[derive(Clone, Copy, Debug, PartialEq, Eq, Structural)]
pub struct ProcessSnapshot {
    pub pid: u32,
    pub uid: u32,
    pub started_at: SystemTime,
    pub executable_device: u64,
    pub executable_inode: u64,
    pub worker: bool,
}

/// Result of checking a metadata PID. Only `Verified` permits reuse or a
/// termination decision; every ambiguous live state is an error.
#[derive(Clone, Copy, Debug, PartialEq, Eq, Structural)]
pub enum ProcessStatus {
    Dead,
    Verified(ProcessSnapshot),
}

/// `rustix::process::getuid`. Nothing is known of the user beforehand.
#[verifier::external_body]
fn current_uid() -> u32 {
    rustix::process::getuid().as_raw()
}

/// `rustix::param::clock_ticks_per_second`. Nothing is known of the rate
/// beforehand.
#[verifier::external_body]
fn clock_ticks_per_second() -> u64 {
    rustix::param::clock_ticks_per_second()
}

/// A user identifier that [`current_uid`] returned.
pub closed spec fn is_current_user(uid: u32) -> bool {
    call_ensures(current_uid, (), uid)
}

/// A tick rate that [`clock_ticks_per_second`] returned.
pub closed spec fn is_tick_rate(ticks_per_second: u64) -> bool {
    call_ensures(clock_ticks_per_second, (), ticks_per_second)
}

/// The user that the current process belongs to.
pub(crate) fn current_user() -> (r: u32)
    ensures
        is_current_user(r),
{
    current_uid()
}

/// The index of the last occurrence of a byte.
pub open spec fn last_index(source: Seq<u8>, wanted: u8) -> Option<int>
    decreases source.len(),
{
    if source.len() == 0 {
        None
    } else if source.last() == wanted {
        Some(source.len() - 1)
    } else {
        last_index(source.drop_last(), wanted)
    }
}

fn find_last(source: &[u8], wanted: u8) -> (r: Option<usize>)
    ensures
        match last_index(source@, wanted) {
            Some(index) => r matches Some(found) && found == index && index < source@.len(),
            None => r is None,
        },
{
    let mut end: usize = source.len();
    assert(source@.take(end as int) =~= source@);
    while end > 0
        invariant
            end <= source.len(),
            last_index(source@, wanted) == last_index(source@.take(end as int), wanted),
        decreases end,
    {
        assert(source@.take(end as int).drop_last() =~= source@.take(end - 1));
        assert(source@.take(end as int).last() == source@[end - 1]);
        if source[end - 1] == wanted {
            return Some(end - 1);
        }
        end -= 1;
    }
    None
}

/// The state letter and the start time in ticks of a process statistics line.
/// The process name stands in parentheses and may hold anything.
pub open spec fn linux_stat(source: Seq<u8>) -> Result<(u8, u64), ProcessIdentityError> {
    match last_index(source, 41) {
        None => Err(ProcessIdentityError::Security("proc stat has malformed process name")),
        Some(closing) => {
            let fields = bytes::words(source.skip(closing + 1));
            if fields.len() <= 19 || fields[0].len() != 1 {
                Err(
                    ProcessIdentityError::Security(
                        "proc stat does not contain a process start time",
                    ),
                )
            } else {
                match bytes::unsigned(fields[19], u64::MAX as nat) {
                    Some(ticks) => Ok((fields[0][0], ticks as u64)),
                    None => Err(
                        ProcessIdentityError::Security("proc stat process start time is invalid"),
                    ),
                }
            }
        },
    }
}

pub fn parse_linux_stat(source: &[u8]) -> (r: Result<(u8, u64), ProcessIdentityError>)
    ensures
        r == linux_stat(source@),
{
    let closing = match find_last(source, 41) {
        Some(closing) => closing,
        None => {
            return Err(ProcessIdentityError::Security("proc stat has malformed process name"));
        },
    };
    let length = source.len();
    let rest = vstd::slice::slice_subrange(source, closing + 1, length);
    assert(rest@ =~= source@.skip(closing + 1));
    let fields = words_of(rest);
    assert(bytes::pieces(fields@).len() == fields@.len());
    if fields.len() <= 19 {
        return Err(
            ProcessIdentityError::Security("proc stat does not contain a process start time"),
        );
    }
    assert(bytes::pieces(fields@)[0] == fields@[0]@);
    assert(bytes::pieces(fields@)[19] == fields@[19]@);
    if fields[0].len() != 1 {
        return Err(
            ProcessIdentityError::Security("proc stat does not contain a process start time"),
        );
    }
    match parse_unsigned(fields[19].as_slice(), u64::MAX) {
        Some(ticks) => Ok((fields[0][0], ticks)),
        None => Err(ProcessIdentityError::Security("proc stat process start time is invalid")),
    }
}

/// What follows a prefix on the first line that has it.
pub open spec fn after_prefix(lines: Seq<Seq<u8>>, prefix: Seq<u8>) -> Option<Seq<u8>>
    decreases lines.len(),
{
    if lines.len() == 0 {
        None
    } else if bytes::begins_with(lines[0], prefix) {
        Some(lines[0].skip(prefix.len() as int))
    } else {
        after_prefix(lines.skip(1), prefix)
    }
}

fn find_after_prefix(lines: &Vec<Vec<u8>>, prefix: &[u8]) -> (r: Option<Vec<u8>>)
    ensures
        match after_prefix(bytes::pieces(lines@), prefix@) {
            Some(rest) => r matches Some(found) && found@ == rest,
            None => r is None,
        },
{
    let ghost all = bytes::pieces(lines@);
    let mut index: usize = 0;
    assert(all.skip(0) =~= all);
    while index < lines.len()
        invariant
            index <= lines.len(),
            all == bytes::pieces(lines@),
            after_prefix(all, prefix@) == after_prefix(all.skip(index as int), prefix@),
        decreases lines.len() - index,
    {
        let line = &lines[index];
        assert(all.skip(index as int)[0] == line@);
        assert(all.skip(index as int).skip(1) =~= all.skip(index + 1));
        if has_prefix(line.as_slice(), prefix) {
            let rest = vstd::slice::slice_subrange(line.as_slice(), prefix.len(), line.len());
            assert(rest@ =~= line@.skip(prefix@.len() as int));
            return Some(vstd::slice::slice_to_vec(rest));
        }
        index += 1;
    }
    None
}

/// The real user of a process, from its status text.
pub open spec fn linux_status_uid(source: Seq<u8>) -> Result<u32, ProcessIdentityError> {
    if !vstd::utf8::valid_utf8(source) {
        Err(ProcessIdentityError::Security("proc status is not valid UTF-8"))
    } else {
        match after_prefix(bytes::lines(source), vstd::utf8::encode_utf8("Uid:"@)) {
            None => Err(ProcessIdentityError::Security("proc status does not contain a UID")),
            Some(rest) => {
                let values = bytes::words(rest);
                if values.len() == 0 {
                    Err(ProcessIdentityError::Security("proc status UID is invalid"))
                } else {
                    match bytes::unsigned(values[0], u32::MAX as nat) {
                        Some(uid) => Ok(uid as u32),
                        None => Err(ProcessIdentityError::Security("proc status UID is invalid")),
                    }
                }
            },
        }
    }
}

pub fn parse_linux_status_uid(source: &[u8]) -> (r: Result<u32, ProcessIdentityError>)
    ensures
        r == linux_status_uid(source@),
{
    if !is_utf8(source) {
        return Err(ProcessIdentityError::Security("proc status is not valid UTF-8"));
    }
    let rest = match find_after_prefix(&lines_of(source), "Uid:".as_bytes()) {
        Some(rest) => rest,
        None => {
            return Err(ProcessIdentityError::Security("proc status does not contain a UID"));
        },
    };
    let values = words_of(rest.as_slice());
    assert(bytes::pieces(values@).len() == values@.len());
    if values.len() == 0 {
        return Err(ProcessIdentityError::Security("proc status UID is invalid"));
    }
    assert(bytes::pieces(values@)[0] == values@[0]@);
    match parse_unsigned(values[0].as_slice(), u32::MAX as u64) {
        Some(uid) => Ok(uid as u32),
        None => Err(ProcessIdentityError::Security("proc status UID is invalid")),
    }
}

/// The time of the last boot in seconds, from the statistics of the system.
pub open spec fn boot_time(system_stat: Seq<u8>) -> Result<u64, ProcessIdentityError> {
    match after_prefix(bytes::lines(system_stat), vstd::utf8::encode_utf8("btime "@)) {
        None => Err(ProcessIdentityError::Security("system boot time could not be verified")),
        Some(value) => match bytes::unsigned(value, u64::MAX as nat) {
            None => Err(ProcessIdentityError::Security("system boot time could not be verified")),
            Some(boot_seconds) => Ok(boot_seconds as u64),
        },
    }
}

/// The wall-clock time at which a process started, from its start in clock
/// ticks after a boot.
pub open spec fn started_after_boot(
    start_ticks: u64,
    boot_seconds: u64,
    ticks_per_second: u64,
) -> Result<SystemTime, ProcessIdentityError> {
    if ticks_per_second == 0 {
        Err(ProcessIdentityError::Security("system clock tick rate is invalid"))
    } else {
        let whole = time::least(
            boot_seconds as nat + (start_ticks / ticks_per_second) as nat,
            u64::MAX as nat,
        );
        let nanoseconds = (start_ticks % ticks_per_second) as nat * 1_000_000_000
            / ticks_per_second as nat;
        match time::epoch_time(whole * 1_000_000_000 + nanoseconds) {
            Some(started_at) => Ok(started_at),
            None => Err(
                ProcessIdentityError::Security("process start time is outside the supported range"),
            ),
        }
    }
}

/// The wall-clock time at which a process started, from its start in clock
/// ticks after boot.
pub open spec fn start_time(start_ticks: u64, system_stat: Seq<u8>, ticks_per_second: u64) -> Result<
    SystemTime,
    ProcessIdentityError,
> {
    match boot_time(system_stat) {
        Err(failure) => Err(failure),
        Ok(boot_seconds) => started_after_boot(start_ticks, boot_seconds, ticks_per_second),
    }
}

fn find_boot_time(system_stat: &[u8]) -> (r: Result<u64, ProcessIdentityError>)
    ensures
        r == boot_time(system_stat@),
{
    let value = match find_after_prefix(&lines_of(system_stat), "btime ".as_bytes()) {
        Some(value) => value,
        None => {
            return Err(ProcessIdentityError::Security("system boot time could not be verified"));
        },
    };
    match parse_unsigned(value.as_slice(), u64::MAX) {
        Some(boot_seconds) => Ok(boot_seconds),
        None => Err(ProcessIdentityError::Security("system boot time could not be verified")),
    }
}

fn date_start(start_ticks: u64, boot_seconds: u64, ticks_per_second: u64) -> (r: Result<
    SystemTime,
    ProcessIdentityError,
>)
    ensures
        r == started_after_boot(start_ticks, boot_seconds, ticks_per_second),
{
    if ticks_per_second == 0 {
        return Err(ProcessIdentityError::Security("system clock tick rate is invalid"));
    }
    let whole: u64 = start_ticks / ticks_per_second;
    let rest: u64 = start_ticks % ticks_per_second;
    assert(rest < ticks_per_second);
    assert(0 <= rest * 1_000_000_000 / (ticks_per_second as int) < 1_000_000_000)
        by (nonlinear_arith)
        requires
            0 <= rest < ticks_per_second,
    ;
    assert(rest as u128 * 1_000_000_000 <= u64::MAX as u128 * 1_000_000_000);
    let nanoseconds: u64 = (rest as u128 * 1_000_000_000 / ticks_per_second as u128) as u64;
    let seconds: u64 = if boot_seconds <= u64::MAX - whole {
        boot_seconds + whole
    } else {
        u64::MAX
    };
    match SystemTime::after_epoch(seconds, nanoseconds) {
        Some(started_at) => Ok(started_at),
        None => Err(
            ProcessIdentityError::Security("process start time is outside the supported range"),
        ),
    }
}

pub fn linux_start_time(start_ticks: u64, system_stat: &[u8], ticks_per_second: u64) -> (r: Result<
    SystemTime,
    ProcessIdentityError,
>)
    ensures
        r == start_time(start_ticks, system_stat@, ticks_per_second),
{
    match find_boot_time(system_stat) {
        Err(failure) => Err(failure),
        Ok(boot_seconds) => date_start(start_ticks, boot_seconds, ticks_per_second),
    }
}

/// A command line is a worker's if it names a program, the worker role, and
/// nothing else.
pub open spec fn worker_cmdline(source: Seq<u8>) -> bool {
    let arguments = bytes::split(source, Separator::Byte(0));
    &&& arguments.len() >= 2
    &&& arguments[0].len() > 0
    &&& arguments[1] == vstd::utf8::encode_utf8(WORKER_ROLE@)
    &&& forall|i: int| 2 <= i < arguments.len() ==> (#[trigger] arguments[i]).len() == 0
}

pub fn is_worker_cmdline(source: &[u8]) -> (r: bool)
    ensures
        r == worker_cmdline(source@),
{
    let arguments = split_bytes(source, Separator::Byte(0));
    let ghost all = bytes::pieces(arguments@);
    assert(all.len() == arguments@.len());
    if arguments.len() < 2 {
        return false;
    }
    assert(all[0] == arguments@[0]@ && all[1] == arguments@[1]@);
    if arguments[0].len() == 0 || !bytes_equal(arguments[1].as_slice(), WORKER_ROLE.as_bytes()) {
        return false;
    }
    let mut index: usize = 2;
    while index < arguments.len()
        invariant
            2 <= index <= arguments.len(),
            all == bytes::pieces(arguments@),
            all == bytes::split(source@, Separator::Byte(0)),
            forall|i: int| 2 <= i < index ==> (#[trigger] all[i]).len() == 0,
        decreases arguments.len() - index,
    {
        assert(all[index as int] == arguments@[index as int]@);
        if arguments[index].len() > 0 {
            return false;
        }
        index += 1;
    }
    true
}

/// How far the observation of a process has come.
#[derive(Clone, Debug, PartialEq, Eq)]
pub enum ProcessFlow<T> {
    Asks(FileAction),
    Gives(T),
    Fails(ProcessIdentityError),
}

pub open spec fn proc_shown(replies: Seq<FileReply>, at: int, action: FileAction) -> ProcessFlow<
    FileFacts,
> {
    if at >= replies.len() {
        ProcessFlow::Asks(action)
    } else {
        match replies[at] {
            FileReply::Facts(facts) => ProcessFlow::Gives(facts),
            _ => ProcessFlow::Fails(ProcessIdentityError::Query),
        }
    }
}

fn show_proc(replies: &[FileReply], at: usize, action: FileAction) -> (r: ProcessFlow<FileFacts>)
    ensures
        r == proc_shown(replies@, at as int, action),
{
    if at >= replies.len() {
        return ProcessFlow::Asks(action);
    }
    match &replies[at] {
        FileReply::Facts(facts) => ProcessFlow::Gives(*facts),
        _ => ProcessFlow::Fails(ProcessIdentityError::Query),
    }
}

/// The most that is read of one file about a process.
pub const PROC_FILE_LIMIT: usize = 1_048_576;

/// The number of answers that [`proc_file_read`] needs to pass.
pub const PROC_FILE_ANSWERS: usize = 5;

/// Reads a file about a process: a regular file of the user that stays the same
/// entry from before it is opened until after it was read.
pub open spec fn proc_file_read(
    place: Place,
    uid: u32,
    replies: Seq<FileReply>,
    at: int,
) -> ProcessFlow<()> {
    match proc_shown(replies, at, FileAction::Inspect(place)) {
        ProcessFlow::Asks(action) => ProcessFlow::Asks(action),
        ProcessFlow::Fails(failure) => ProcessFlow::Fails(failure),
        ProcessFlow::Gives(before) => if before.kind != FileKind::Regular || before.uid != uid {
            ProcessFlow::Fails(
                ProcessIdentityError::Security("proc identity file owner or type is unsafe"),
            )
        } else if at + 1 >= replies.len() {
            ProcessFlow::Asks(FileAction::Open(place))
        } else if replies[at + 1] !is Done {
            ProcessFlow::Fails(ProcessIdentityError::Query)
        } else {
            match proc_shown(replies, at + 2, FileAction::InspectOpened(place)) {
                ProcessFlow::Asks(action) => ProcessFlow::Asks(action),
                ProcessFlow::Fails(failure) => ProcessFlow::Fails(failure),
                ProcessFlow::Gives(opened) => if files::identity_of(before) != files::identity_of(
                    opened,
                ) {
                    ProcessFlow::Fails(
                        ProcessIdentityError::Security("proc identity file changed while opening"),
                    )
                } else {
                    proc_bytes_read(place, opened, replies, at + 3)
                },
            }
        },
    }
}

/// The part of such a read behind the inspection of the opened file.
pub open spec fn proc_bytes_read(
    place: Place,
    opened: FileFacts,
    replies: Seq<FileReply>,
    at: int,
) -> ProcessFlow<()> {
    if at >= replies.len() {
        ProcessFlow::Asks(FileAction::ReadOpened((PROC_FILE_LIMIT + 1) as usize))
    } else {
        match replies[at] {
            FileReply::Bytes(read) => if read@.len() > PROC_FILE_LIMIT {
                ProcessFlow::Fails(
                    ProcessIdentityError::Security("proc identity file exceeded its safety limit"),
                )
            } else {
                match proc_shown(replies, at + 1, FileAction::Inspect(place)) {
                    ProcessFlow::Asks(action) => ProcessFlow::Asks(action),
                    ProcessFlow::Fails(failure) => ProcessFlow::Fails(failure),
                    ProcessFlow::Gives(after) => if files::identity_of(opened)
                        != files::identity_of(after) {
                        ProcessFlow::Fails(
                            ProcessIdentityError::Security(
                                "proc identity file changed during query",
                            ),
                        )
                    } else {
                        ProcessFlow::Gives(())
                    },
                }
            },
            _ => ProcessFlow::Fails(ProcessIdentityError::Query),
        }
    }
}

/// The bytes that such a read gave.
pub open spec fn proc_bytes(replies: Seq<FileReply>, at: int) -> Seq<u8> {
    match replies[at + 3] {
        FileReply::Bytes(read) => read@,
        _ => Seq::empty(),
    }
}

fn read_proc_bytes(place: Place, opened: FileFacts, replies: &[FileReply], at: usize) -> (r:
    ProcessFlow<()>)
    requires
        at + 1 <= usize::MAX,
    ensures
        r == proc_bytes_read(place, opened, replies@, at as int),
{
    if at >= replies.len() {
        return ProcessFlow::Asks(FileAction::ReadOpened(PROC_FILE_LIMIT + 1));
    }
    match &replies[at] {
        FileReply::Bytes(read) => {
            if read.len() > PROC_FILE_LIMIT {
                return ProcessFlow::Fails(
                    ProcessIdentityError::Security("proc identity file exceeded its safety limit"),
                );
            }
        },
        _ => return ProcessFlow::Fails(ProcessIdentityError::Query),
    }
    match show_proc(replies, at + 1, FileAction::Inspect(place)) {
        ProcessFlow::Asks(action) => ProcessFlow::Asks(action),
        ProcessFlow::Fails(failure) => ProcessFlow::Fails(failure),
        ProcessFlow::Gives(after) => {
            if same_file(opened, after) {
                ProcessFlow::Gives(())
            } else {
                ProcessFlow::Fails(
                    ProcessIdentityError::Security("proc identity file changed during query"),
                )
            }
        },
    }
}

pub fn read_validated_proc_file(place: Place, uid: u32, replies: &[FileReply], at: usize) -> (r:
    ProcessFlow<()>)
    requires
        at + 4 <= usize::MAX,
    ensures
        r == proc_file_read(place, uid, replies@, at as int),
        r is Gives ==> at + PROC_FILE_ANSWERS <= replies@.len() && replies@[at + 3] is Bytes,
{
    let before = match show_proc(replies, at, FileAction::Inspect(place)) {
        ProcessFlow::Asks(action) => return ProcessFlow::Asks(action),
        ProcessFlow::Fails(failure) => return ProcessFlow::Fails(failure),
        ProcessFlow::Gives(before) => before,
    };
    if before.kind != FileKind::Regular || before.uid != uid {
        return ProcessFlow::Fails(
            ProcessIdentityError::Security("proc identity file owner or type is unsafe"),
        );
    }
    if at + 1 >= replies.len() {
        return ProcessFlow::Asks(FileAction::Open(place));
    }
    match &replies[at + 1] {
        FileReply::Done => {},
        _ => return ProcessFlow::Fails(ProcessIdentityError::Query),
    }
    let opened = match show_proc(replies, at + 2, FileAction::InspectOpened(place)) {
        ProcessFlow::Asks(action) => return ProcessFlow::Asks(action),
        ProcessFlow::Fails(failure) => return ProcessFlow::Fails(failure),
        ProcessFlow::Gives(opened) => opened,
    };
    if !same_file(before, opened) {
        return ProcessFlow::Fails(
            ProcessIdentityError::Security("proc identity file changed while opening"),
        );
    }
    read_proc_bytes(place, opened, replies, at + 3)
}

/// The file about a process that a finished read gave.
fn proc_contents(replies: &[FileReply], at: usize) -> (r: &[u8])
    requires
        at + 3 <= usize::MAX,
        at + PROC_FILE_ANSWERS <= replies@.len(),
        replies@[at + 3] is Bytes,
    ensures
        r@ == proc_bytes(replies@, at as int),
{
    match &replies[at + 3] {
        FileReply::Bytes(read) => read.as_slice(),
        _ => vstd::slice::slice_subrange("".as_bytes(), 0, 0),
    }
}

/// The program that a process runs: the link to it belongs to the user, leads
/// to a normalized path, and ends at a regular file.
pub open spec fn executable_observed(uid: u32, replies: Seq<FileReply>, at: int) -> ProcessFlow<
    FileFacts,
> {
    let place = Place::ProcessExecutable;
    match proc_shown(replies, at, FileAction::Inspect(place)) {
        ProcessFlow::Asks(action) => ProcessFlow::Asks(action),
        ProcessFlow::Fails(failure) => ProcessFlow::Fails(failure),
        ProcessFlow::Gives(link) => if link.kind != FileKind::Symlink || link.uid != uid {
            ProcessFlow::Fails(
                ProcessIdentityError::Security("proc executable link owner or type is unsafe"),
            )
        } else if at + 1 >= replies.len() {
            ProcessFlow::Asks(FileAction::ReadLink(place))
        } else {
            match replies[at + 1] {
                FileReply::Path(path) => if !unix_path::absolute_and_normalized(path@) {
                    ProcessFlow::Fails(
                        ProcessIdentityError::Security(
                            "executable path is not absolute and normalized",
                        ),
                    )
                } else {
                    match proc_shown(replies, at + 2, FileAction::Follow(place)) {
                        ProcessFlow::Asks(action) => ProcessFlow::Asks(action),
                        ProcessFlow::Fails(failure) => ProcessFlow::Fails(failure),
                        ProcessFlow::Gives(target) => if target.kind != FileKind::Regular {
                            ProcessFlow::Fails(
                                ProcessIdentityError::Security(
                                    "proc executable target is not a regular file",
                                ),
                            )
                        } else {
                            ProcessFlow::Gives(target)
                        },
                    }
                },
                _ => ProcessFlow::Fails(ProcessIdentityError::Query),
            }
        },
    }
}

fn observe_executable(uid: u32, replies: &[FileReply], at: usize) -> (r: ProcessFlow<FileFacts>)
    requires
        at + 2 <= usize::MAX,
    ensures
        r == executable_observed(uid, replies@, at as int),
{
    let place = Place::ProcessExecutable;
    let link = match show_proc(replies, at, FileAction::Inspect(place)) {
        ProcessFlow::Asks(action) => return ProcessFlow::Asks(action),
        ProcessFlow::Fails(failure) => return ProcessFlow::Fails(failure),
        ProcessFlow::Gives(link) => link,
    };
    if link.kind != FileKind::Symlink || link.uid != uid {
        return ProcessFlow::Fails(
            ProcessIdentityError::Security("proc executable link owner or type is unsafe"),
        );
    }
    if at + 1 >= replies.len() {
        return ProcessFlow::Asks(FileAction::ReadLink(place));
    }
    match &replies[at + 1] {
        FileReply::Path(path) => {
            if let Err(failure) = validate_absolute_normalized_path(path.as_slice()) {
                return ProcessFlow::Fails(failure);
            }
        },
        _ => return ProcessFlow::Fails(ProcessIdentityError::Query),
    }
    match show_proc(replies, at + 2, FileAction::Follow(place)) {
        ProcessFlow::Asks(action) => ProcessFlow::Asks(action),
        ProcessFlow::Fails(failure) => ProcessFlow::Fails(failure),
        ProcessFlow::Gives(target) => {
            if target.kind == FileKind::Regular {
                ProcessFlow::Gives(target)
            } else {
                ProcessFlow::Fails(
                    ProcessIdentityError::Security("proc executable target is not a regular file"),
                )
            }
        },
    }
}

pub fn validate_absolute_normalized_path(path: &[u8]) -> (r: Result<(), ProcessIdentityError>)
    ensures
        r == (if unix_path::absolute_and_normalized(path@) {
            Ok(())
        } else {
            Err(
                ProcessIdentityError::Security("executable path is not absolute and normalized"),
            )
        }),
{
    if is_absolute_and_normalized(path) {
        Ok(())
    } else {
        Err(ProcessIdentityError::Security("executable path is not absolute and normalized"))
    }
}

/// What the kernel shows about a process. Its start is counted in clock ticks
/// after the last boot.
#[derive(Clone, Copy, Debug, PartialEq, Eq, Structural)]
pub struct LinuxRecord {
    pub pid: u32,
    pub uid: u32,
    pub start_ticks: u64,
    pub boot_seconds: u64,
    pub executable_device: u64,
    pub executable_inode: u64,
    pub worker: bool,
}

/// Observes a process through the kernel's process directory. A process that is
/// gone, or only waits to be reaped, is not observed.
pub open spec fn linux_recorded(
    pid: u32,
    uid: u32,
    replies: Seq<FileReply>,
) -> ProcessFlow<Option<LinuxRecord>> {
    if replies.len() == 0 {
        ProcessFlow::Asks(FileAction::Inspect(Place::ProcessDir))
    } else {
        match replies[0] {
            FileReply::Missing => ProcessFlow::Gives(None),
            FileReply::Facts(before) => if before.kind != FileKind::Directory || before.uid != uid {
                ProcessFlow::Fails(
                    ProcessIdentityError::Security("proc process directory owner or type is unsafe"),
                )
            } else {
                linux_stat_recorded(pid, uid, before, replies)
            },
            _ => ProcessFlow::Fails(ProcessIdentityError::Query),
        }
    }
}

/// The part of an observation behind the process directory.
pub open spec fn linux_stat_recorded(
    pid: u32,
    uid: u32,
    before: FileFacts,
    replies: Seq<FileReply>,
) -> ProcessFlow<Option<LinuxRecord>> {
    match proc_file_read(Place::ProcessStat, uid, replies, 1) {
        ProcessFlow::Asks(action) => ProcessFlow::Asks(action),
        ProcessFlow::Fails(failure) => ProcessFlow::Fails(failure),
        ProcessFlow::Gives(()) => match linux_stat(proc_bytes(replies, 1)) {
            Err(failure) => ProcessFlow::Fails(failure),
            Ok((state, start_ticks)) => if state == 90 || state == 88 {
                ProcessFlow::Gives(None)
            } else {
                match proc_file_read(Place::ProcessStatus, uid, replies, 6) {
                    ProcessFlow::Asks(action) => ProcessFlow::Asks(action),
                    ProcessFlow::Fails(failure) => ProcessFlow::Fails(failure),
                    ProcessFlow::Gives(()) => match linux_status_uid(proc_bytes(replies, 6)) {
                        Err(failure) => ProcessFlow::Fails(failure),
                        Ok(status_uid) => match proc_file_read(
                            Place::ProcessArguments,
                            uid,
                            replies,
                            11,
                        ) {
                            ProcessFlow::Asks(action) => ProcessFlow::Asks(action),
                            ProcessFlow::Fails(failure) => ProcessFlow::Fails(failure),
                            ProcessFlow::Gives(()) => linux_program_recorded(
                                pid,
                                uid,
                                before,
                                start_ticks,
                                status_uid,
                                worker_cmdline(proc_bytes(replies, 11)),
                                replies,
                            ),
                        },
                    },
                }
            },
        },
    }
}

/// The part of an observation behind the files about the process.
pub open spec fn linux_program_recorded(
    pid: u32,
    uid: u32,
    before: FileFacts,
    start_ticks: u64,
    status_uid: u32,
    worker: bool,
    replies: Seq<FileReply>,
) -> ProcessFlow<Option<LinuxRecord>> {
    match executable_observed(uid, replies, 16) {
        ProcessFlow::Asks(action) => ProcessFlow::Asks(action),
        ProcessFlow::Fails(failure) => ProcessFlow::Fails(failure),
        ProcessFlow::Gives(executable) => match proc_shown(
            replies,
            19,
            FileAction::Inspect(Place::ProcessDir),
        ) {
            ProcessFlow::Asks(action) => ProcessFlow::Asks(action),
            ProcessFlow::Fails(failure) => ProcessFlow::Fails(failure),
            ProcessFlow::Gives(after) => if files::identity_of(before) != files::identity_of(after)
                || after.uid != uid || after.kind != FileKind::Directory {
                ProcessFlow::Fails(
                    ProcessIdentityError::Security("process changed during proc identity query"),
                )
            } else if replies.len() <= 20 {
                ProcessFlow::Asks(FileAction::ReadText(Place::SystemStat))
            } else {
                match replies[20] {
                    FileReply::Bytes(system_stat) => match boot_time(system_stat@) {
                        Err(failure) => ProcessFlow::Fails(failure),
                        Ok(boot_seconds) => ProcessFlow::Gives(
                            Some(
                                LinuxRecord {
                                    pid,
                                    uid: status_uid,
                                    start_ticks,
                                    boot_seconds,
                                    executable_device: executable.device,
                                    executable_inode: executable.inode,
                                    worker,
                                },
                            ),
                        ),
                    },
                    _ => ProcessFlow::Fails(ProcessIdentityError::Query),
                }
            },
        },
    }
}

fn record_linux_program(
    pid: u32,
    uid: u32,
    before: FileFacts,
    start_ticks: u64,
    status_uid: u32,
    worker: bool,
    replies: &[FileReply],
) -> (r: ProcessFlow<Option<LinuxRecord>>)
    ensures
        r == linux_program_recorded(
            pid,
            uid,
            before,
            start_ticks,
            status_uid,
            worker,
            replies@,
        ),
{
    let executable = match observe_executable(uid, replies, 16) {
        ProcessFlow::Asks(action) => return ProcessFlow::Asks(action),
        ProcessFlow::Fails(failure) => return ProcessFlow::Fails(failure),
        ProcessFlow::Gives(executable) => executable,
    };
    let after = match show_proc(replies, 19, FileAction::Inspect(Place::ProcessDir)) {
        ProcessFlow::Asks(action) => return ProcessFlow::Asks(action),
        ProcessFlow::Fails(failure) => return ProcessFlow::Fails(failure),
        ProcessFlow::Gives(after) => after,
    };
    if !same_file(before, after) || after.uid != uid || after.kind != FileKind::Directory {
        return ProcessFlow::Fails(
            ProcessIdentityError::Security("process changed during proc identity query"),
        );
    }
    if replies.len() <= 20 {
        return ProcessFlow::Asks(FileAction::ReadText(Place::SystemStat));
    }
    let system_stat = match &replies[20] {
        FileReply::Bytes(system_stat) => system_stat,
        _ => return ProcessFlow::Fails(ProcessIdentityError::Query),
    };
    match find_boot_time(system_stat.as_slice()) {
        Err(failure) => ProcessFlow::Fails(failure),
        Ok(boot_seconds) => ProcessFlow::Gives(
            Some(
                LinuxRecord {
                    pid,
                    uid: status_uid,
                    start_ticks,
                    boot_seconds,
                    executable_device: executable.device,
                    executable_inode: executable.inode,
                    worker,
                },
            ),
        ),
    }
}

/// Reads what the kernel shows about a process to a given user.
pub fn record_linux_process(
    pid: u32,
    uid: u32,
    replies: &[FileReply],
) -> (r: ProcessFlow<Option<LinuxRecord>>)
    ensures
        r == linux_recorded(pid, uid, replies@),
{
    if replies.len() == 0 {
        return ProcessFlow::Asks(FileAction::Inspect(Place::ProcessDir));
    }
    let before = match &replies[0] {
        FileReply::Missing => return ProcessFlow::Gives(None),
        FileReply::Facts(before) => *before,
        _ => return ProcessFlow::Fails(ProcessIdentityError::Query),
    };
    if before.kind != FileKind::Directory || before.uid != uid {
        return ProcessFlow::Fails(
            ProcessIdentityError::Security("proc process directory owner or type is unsafe"),
        );
    }
    match read_validated_proc_file(Place::ProcessStat, uid, replies, 1) {
        ProcessFlow::Asks(action) => return ProcessFlow::Asks(action),
        ProcessFlow::Fails(failure) => return ProcessFlow::Fails(failure),
        ProcessFlow::Gives(()) => {},
    }
    let (state, start_ticks) = match parse_linux_stat(proc_contents(replies, 1)) {
        Ok(parsed) => parsed,
        Err(failure) => return ProcessFlow::Fails(failure),
    };
    if state == 90 || state == 88 {
        return ProcessFlow::Gives(None);
    }
    match read_validated_proc_file(Place::ProcessStatus, uid, replies, 6) {
        ProcessFlow::Asks(action) => return ProcessFlow::Asks(action),
        ProcessFlow::Fails(failure) => return ProcessFlow::Fails(failure),
        ProcessFlow::Gives(()) => {},
    }
    let status_uid = match parse_linux_status_uid(proc_contents(replies, 6)) {
        Ok(status_uid) => status_uid,
        Err(failure) => return ProcessFlow::Fails(failure),
    };
    match read_validated_proc_file(Place::ProcessArguments, uid, replies, 11) {
        ProcessFlow::Asks(action) => return ProcessFlow::Asks(action),
        ProcessFlow::Fails(failure) => return ProcessFlow::Fails(failure),
        ProcessFlow::Gives(()) => {},
    }
    let worker = is_worker_cmdline(proc_contents(replies, 11));
    record_linux_program(
        pid,
        uid,
        before,
        start_ticks,
        status_uid,
        worker,
        replies,
    )
}

/// The process behind a record, for a clock rate.
pub open spec fn linux_dated(record: LinuxRecord, ticks_per_second: u64) -> ProcessFlow<
    Option<ProcessSnapshot>,
> {
    match started_after_boot(record.start_ticks, record.boot_seconds, ticks_per_second) {
        Err(failure) => ProcessFlow::Fails(failure),
        Ok(started_at) => ProcessFlow::Gives(
            Some(
                ProcessSnapshot {
                    pid: record.pid,
                    uid: record.uid,
                    started_at,
                    executable_device: record.executable_device,
                    executable_inode: record.executable_inode,
                    worker: record.worker,
                },
            ),
        ),
    }
}

/// An observation before the clock rate matters: it goes on, fails, or shows no
/// process.
pub open spec fn linux_undated(recorded: ProcessFlow<Option<LinuxRecord>>) -> ProcessFlow<
    Option<ProcessSnapshot>,
> {
    match recorded {
        ProcessFlow::Asks(action) => ProcessFlow::Asks(action),
        ProcessFlow::Fails(failure) => ProcessFlow::Fails(failure),
        ProcessFlow::Gives(_) => ProcessFlow::Gives(None),
    }
}

/// Observes a process for a user and a clock rate.
pub open spec fn linux_observed(
    pid: u32,
    uid: u32,
    ticks_per_second: u64,
    replies: Seq<FileReply>,
) -> ProcessFlow<Option<ProcessSnapshot>> {
    match linux_recorded(pid, uid, replies) {
        ProcessFlow::Gives(Some(record)) => linux_dated(record, ticks_per_second),
        other => linux_undated(other),
    }
}

fn date_linux_record(record: LinuxRecord, ticks_per_second: u64) -> (r: ProcessFlow<
    Option<ProcessSnapshot>,
>)
    ensures
        r == linux_dated(record, ticks_per_second),
{
    match date_start(record.start_ticks, record.boot_seconds, ticks_per_second) {
        Err(failure) => ProcessFlow::Fails(failure),
        Ok(started_at) => ProcessFlow::Gives(
            Some(
                ProcessSnapshot {
                    pid: record.pid,
                    uid: record.uid,
                    started_at,
                    executable_device: record.executable_device,
                    executable_inode: record.executable_inode,
                    worker: record.worker,
                },
            ),
        ),
    }
}

/// Observes a process for a given user and clock rate.
pub fn observe_linux_process(
    pid: u32,
    uid: u32,
    ticks_per_second: u64,
    replies: &[FileReply],
) -> (r: ProcessFlow<Option<ProcessSnapshot>>)
    ensures
        r == linux_observed(pid, uid, ticks_per_second, replies@),
{
    match record_linux_process(pid, uid, replies) {
        ProcessFlow::Asks(action) => ProcessFlow::Asks(action),
        ProcessFlow::Fails(failure) => ProcessFlow::Fails(failure),
        ProcessFlow::Gives(None) => ProcessFlow::Gives(None),
        ProcessFlow::Gives(Some(record)) => date_linux_record(record, ticks_per_second),
    }
}

/// Observes a process of the current user. The clock rate is asked for only once
/// the start of a process has to be dated.
pub fn linux_process_snapshot(pid: u32, replies: &[FileReply]) -> (r: ProcessFlow<
    Option<ProcessSnapshot>,
>)
    ensures
        exists|uid: u32| #[trigger]
            is_current_user(uid) && match linux_recorded(pid, uid, replies@) {
                ProcessFlow::Gives(Some(record)) => exists|ticks_per_second: u64| #[trigger]
                    is_tick_rate(ticks_per_second) && r == linux_dated(record, ticks_per_second),
                other => r == linux_undated(other),
            },
{
    let uid = current_user();
    match record_linux_process(pid, uid, replies) {
        ProcessFlow::Asks(action) => ProcessFlow::Asks(action),
        ProcessFlow::Fails(failure) => ProcessFlow::Fails(failure),
        ProcessFlow::Gives(None) => ProcessFlow::Gives(None),
        ProcessFlow::Gives(Some(record)) => {
            let ticks_per_second = clock_ticks_per_second();
            assert(is_tick_rate(ticks_per_second));
            date_linux_record(record, ticks_per_second)
        },
    }
}

/// The kernel's record of a process on macOS: the raw record, and the fields of
/// it that matter.
#[derive(Clone, Debug, PartialEq, Eq)]
pub struct BsdInfo {
    pub record: Vec<u8>,
    pub uid: u32,
    pub start_seconds: u64,
    pub start_microseconds: u64,
}

/// One question about a process on macOS.
#[derive(Clone, Copy, Debug, PartialEq, Eq, Structural)]
pub enum BsdAction {
    /// Fetch the process record.
    Info,
    /// Fetch the path of the program.
    ExecutablePath,
    /// Look at what the path of the program leads to.
    FollowExecutable,
    /// Fetch the argument area.
    Arguments,
}

/// An answer to a [`BsdAction`].
#[derive(Clone, Debug, PartialEq, Eq)]
pub enum BsdReply {
    Info(BsdInfo),
    /// There is no such process.
    Gone,
    /// The record has an unexpected size.
    Ambiguous,
    Path(Vec<u8>),
    Facts(FileFacts),
    Arguments(Vec<u8>),
    /// The system's argument limit is not usable.
    UnsafeLimit,
    Failed,
}

/// How far the observation of a process on macOS has come.
#[derive(Clone, Debug, PartialEq, Eq)]
pub enum BsdFlow<T> {
    Asks(BsdAction),
    Gives(T),
    Fails(ProcessIdentityError),
}

/// What the size that a record query reports means: a complete record, a
/// missing process, a failed query, or a record of another shape.
pub fn bsd_query_outcome(read: i32, record_size: i32, error_code: Option<i32>) -> (r: Option<
    BsdReply,
>)
    ensures
        read == 0 ==> r == Some(
            if error_code == Some(3i32) {
                BsdReply::Gone
            } else {
                BsdReply::Failed
            },
        ),
        read != 0 && read != record_size ==> r == Some(BsdReply::Ambiguous),
        read != 0 && read == record_size ==> r is None,
{
    if read == 0 {
        return match error_code {
            Some(3) => Some(BsdReply::Gone),
            _ => Some(BsdReply::Failed),
        };
    }
    if read != record_size {
        return Some(BsdReply::Ambiguous);
    }
    None
}

/// The largest argument area that is accepted.
pub const ARGUMENT_LIMIT: i32 = 16_777_216;

/// Whether the system reported an argument limit that can be allocated.
pub fn argument_limit_is_safe(status: i32, limit: i32) -> (r: bool)
    ensures
        r == (status == 0 && 0 < limit <= ARGUMENT_LIMIT),
{
    status == 0 && 0 < limit && limit <= ARGUMENT_LIMIT
}

/// The index of the first byte at or behind `from` that is zero, or that is not
/// zero, or the end.
pub open spec fn scan(source: Seq<u8>, from: int, zero: bool) -> int
    decreases source.len() - from,
{
    if from >= source.len() || (source[from] == 0) == zero {
        from
    } else {
        scan(source, from + 1, zero)
    }
}

fn scan_bytes(source: &[u8], from: usize, zero: bool) -> (r: usize)
    requires
        from <= source@.len(),
    ensures
        r == scan(source@, from as int, zero),
        from <= r <= source@.len(),
{
    let mut index: usize = from;
    while index < source.len() && (source[index] == 0) != zero
        invariant
            from <= index <= source@.len(),
            scan(source@, from as int, zero) == scan(source@, index as int, zero),
        decreases source@.len() - index,
    {
        index += 1;
    }
    index
}

/// The end of the argument that starts at `from`.
pub open spec fn argument_end(source: Seq<u8>, from: int) -> Option<int> {
    let end = scan(source, from, true);
    if end == source.len() || end == from {
        None
    } else {
        Some(end)
    }
}

/// The two arguments in an argument area, each ended by a zero byte: the area
/// holds the number of arguments, the path of the program, padding, and then
/// the arguments. Any other number of arguments gives nothing.
pub open spec fn procargs(source: Seq<u8>) -> Result<Seq<u8>, ProcessIdentityError> {
    let malformed = ProcessIdentityError::Security("platform process arguments are malformed");
    if source.len() < 4 {
        Err(ProcessIdentityError::Security("platform process arguments are truncated"))
    } else if source.take(4) != seq![2u8, 0u8, 0u8, 0u8] {
        Ok(Seq::empty())
    } else {
        let first = scan(source, scan(source, 4, true), false);
        match argument_end(source, first) {
            None => Err(malformed),
            Some(first_end) => {
                let second = scan(source, first_end, false);
                match argument_end(source, second) {
                    None => Err(malformed),
                    Some(second_end) => Ok(
                        source.subrange(first, first_end).push(0u8) + source.subrange(
                            second,
                            second_end,
                        ).push(0u8),
                    ),
                }
            },
        }
    }
}

/// Takes the worker's two arguments out of an argument area.
pub fn parse_procargs(source: &[u8]) -> (r: Result<Vec<u8>, ProcessIdentityError>)
    ensures
        match procargs(source@) {
            Ok(arguments) => r matches Ok(found) && found@ == arguments,
            Err(failure) => r matches Err(failed) && failed == failure,
        },
{
    if source.len() < 4 {
        return Err(ProcessIdentityError::Security("platform process arguments are truncated"));
    }
    let two = source[0] == 2 && source[1] == 0 && source[2] == 0 && source[3] == 0;
    assert(two <==> source@.take(4) =~= seq![2u8, 0u8, 0u8, 0u8]);
    if !two {
        return Ok(Vec::new());
    }
    let path_end = scan_bytes(source, 4, true);
    let first = scan_bytes(source, path_end, false);
    let first_end = scan_bytes(source, first, true);
    if first_end == source.len() || first_end == first {
        return Err(ProcessIdentityError::Security("platform process arguments are malformed"));
    }
    let second = scan_bytes(source, first_end, false);
    let second_end = scan_bytes(source, second, true);
    if second_end == source.len() || second_end == second {
        return Err(ProcessIdentityError::Security("platform process arguments are malformed"));
    }
    let mut encoded = vstd::slice::slice_to_vec(
        vstd::slice::slice_subrange(source, first, first_end),
    );
    encoded.push(0);
    let mut rest = vstd::slice::slice_to_vec(
        vstd::slice::slice_subrange(source, second, second_end),
    );
    rest.push(0);
    encoded.append(&mut rest);
    Ok(encoded)
}

/// A path without the zero byte that may end it.
pub open spec fn unterminated(path: Seq<u8>) -> Seq<u8> {
    if path.len() > 0 && path.last() == 0 {
        path.drop_last()
    } else {
        path
    }
}

/// The path that the system reported for a program, without its terminator.
pub fn strip_terminator(path: &[u8]) -> (r: Vec<u8>)
    ensures
        r@ == unterminated(path@),
{
    let mut kept = vstd::slice::slice_to_vec(path);
    if kept.len() > 0 && kept[kept.len() - 1] == 0 {
        let _ = kept.pop();
    }
    kept
}

/// Observes a process through its record, its program, and its arguments. The
/// record must be the same before and after.
pub open spec fn bsd_observed(pid: u32, replies: Seq<BsdReply>) -> BsdFlow<
    Option<ProcessSnapshot>,
> {
    if replies.len() == 0 {
        BsdFlow::Asks(BsdAction::Info)
    } else {
        match replies[0] {
            BsdReply::Gone => BsdFlow::Gives(None),
            BsdReply::Ambiguous => BsdFlow::Fails(ambiguous_record()),
            BsdReply::Info(first) => bsd_program_observed(pid, first, replies),
            _ => BsdFlow::Fails(ProcessIdentityError::Query),
        }
    }
}

pub open spec fn ambiguous_record() -> ProcessIdentityError {
    ProcessIdentityError::Security("platform process query returned an ambiguous record")
}

/// The part of an observation behind the first record.
pub open spec fn bsd_program_observed(pid: u32, first: BsdInfo, replies: Seq<BsdReply>) -> BsdFlow<
    Option<ProcessSnapshot>,
> {
    if replies.len() == 1 {
        BsdFlow::Asks(BsdAction::ExecutablePath)
    } else if replies[1] !is Path {
        BsdFlow::Fails(ProcessIdentityError::Query)
    } else if !unix_path::absolute_and_normalized(unterminated(replies[1]->Path_0@)) {
        BsdFlow::Fails(
            ProcessIdentityError::Security("executable path is not absolute and normalized"),
        )
    } else if replies.len() == 2 {
        BsdFlow::Asks(BsdAction::FollowExecutable)
    } else if replies[2] !is Facts {
        BsdFlow::Fails(ProcessIdentityError::Query)
    } else if replies[2]->Facts_0.kind != FileKind::Regular {
        BsdFlow::Fails(ProcessIdentityError::Security("queried executable is not a regular file"))
    } else if replies.len() == 3 {
        BsdFlow::Asks(BsdAction::Arguments)
    } else {
        match replies[3] {
            BsdReply::UnsafeLimit => BsdFlow::Fails(
                ProcessIdentityError::Security("platform process argument limit is unsafe"),
            ),
            BsdReply::Arguments(area) => match procargs(area@) {
                Err(failure) => BsdFlow::Fails(failure),
                Ok(arguments) => bsd_confirmed(
                    pid,
                    first,
                    replies[2]->Facts_0,
                    worker_cmdline(arguments),
                    replies,
                ),
            },
            _ => BsdFlow::Fails(ProcessIdentityError::Query),
        }
    }
}

/// The part of an observation behind the arguments.
pub open spec fn bsd_confirmed(
    pid: u32,
    first: BsdInfo,
    executable: FileFacts,
    worker: bool,
    replies: Seq<BsdReply>,
) -> BsdFlow<Option<ProcessSnapshot>> {
    if replies.len() == 4 {
        BsdFlow::Asks(BsdAction::Info)
    } else {
        match replies[4] {
            BsdReply::Gone => BsdFlow::Fails(
                ProcessIdentityError::Security("process exited during identity query"),
            ),
            BsdReply::Ambiguous => BsdFlow::Fails(ambiguous_record()),
            BsdReply::Info(second) => if first.record@ != second.record@ {
                BsdFlow::Fails(
                    ProcessIdentityError::Security("process changed during identity query"),
                )
            } else {
                match time::epoch_time(
                    first.start_seconds as nat * 1_000_000_000 + first.start_microseconds as nat
                        * 1_000,
                ) {
                    None => BsdFlow::Fails(
                        ProcessIdentityError::Security(
                            "process start time is outside the supported range",
                        ),
                    ),
                    Some(started_at) => BsdFlow::Gives(
                        Some(
                            ProcessSnapshot {
                                pid,
                                uid: first.uid,
                                started_at,
                                executable_device: executable.device,
                                executable_inode: executable.inode,
                                worker,
                            },
                        ),
                    ),
                }
            },
            _ => BsdFlow::Fails(ProcessIdentityError::Query),
        }
    }
}

fn confirm_bsd_process(
    pid: u32,
    first: &BsdInfo,
    executable: FileFacts,
    worker: bool,
    replies: &[BsdReply],
) -> (r: BsdFlow<Option<ProcessSnapshot>>)
    requires
        replies@.len() >= 4,
    ensures
        r == bsd_confirmed(pid, *first, executable, worker, replies@),
{
    if replies.len() == 4 {
        return BsdFlow::Asks(BsdAction::Info);
    }
    let second = match &replies[4] {
        BsdReply::Gone => {
            return BsdFlow::Fails(
                ProcessIdentityError::Security("process exited during identity query"),
            );
        },
        BsdReply::Ambiguous => {
            return BsdFlow::Fails(
                ProcessIdentityError::Security(
                    "platform process query returned an ambiguous record",
                ),
            );
        },
        BsdReply::Info(second) => second,
        _ => return BsdFlow::Fails(ProcessIdentityError::Query),
    };
    if !bytes_equal(first.record.as_slice(), second.record.as_slice()) {
        return BsdFlow::Fails(
            ProcessIdentityError::Security("process changed during identity query"),
        );
    }
    match SystemTime::after_epoch_micros(first.start_seconds, first.start_microseconds) {
        None => BsdFlow::Fails(
            ProcessIdentityError::Security("process start time is outside the supported range"),
        ),
        Some(started_at) => BsdFlow::Gives(
            Some(
                ProcessSnapshot {
                    pid,
                    uid: first.uid,
                    started_at,
                    executable_device: executable.device,
                    executable_inode: executable.inode,
                    worker,
                },
            ),
        ),
    }
}

/// Observes a process on macOS.
pub fn macos_process_snapshot(pid: u32, replies: &[BsdReply]) -> (r: BsdFlow<
    Option<ProcessSnapshot>,
>)
    ensures
        r == bsd_observed(pid, replies@),
{
    if replies.len() == 0 {
        return BsdFlow::Asks(BsdAction::Info);
    }
    let first = match &replies[0] {
        BsdReply::Gone => return BsdFlow::Gives(None),
        BsdReply::Ambiguous => {
            return BsdFlow::Fails(
                ProcessIdentityError::Security(
                    "platform process query returned an ambiguous record",
                ),
            );
        },
        BsdReply::Info(first) => first,
        _ => return BsdFlow::Fails(ProcessIdentityError::Query),
    };
    if replies.len() == 1 {
        return BsdFlow::Asks(BsdAction::ExecutablePath);
    }
    match &replies[1] {
        BsdReply::Path(path) => {
            if let Err(failure) = validate_absolute_normalized_path(
                strip_terminator(path.as_slice()).as_slice(),
            ) {
                return BsdFlow::Fails(failure);
            }
        },
        _ => return BsdFlow::Fails(ProcessIdentityError::Query),
    }
    if replies.len() == 2 {
        return BsdFlow::Asks(BsdAction::FollowExecutable);
    }
    let executable = match &replies[2] {
        BsdReply::Facts(executable) => *executable,
        _ => return BsdFlow::Fails(ProcessIdentityError::Query),
    };
    if executable.kind != FileKind::Regular {
        return BsdFlow::Fails(
            ProcessIdentityError::Security("queried executable is not a regular file"),
        );
    }
    if replies.len() == 3 {
        return BsdFlow::Asks(BsdAction::Arguments);
    }
    let arguments = match &replies[3] {
        BsdReply::UnsafeLimit => {
            return BsdFlow::Fails(
                ProcessIdentityError::Security("platform process argument limit is unsafe"),
            );
        },
        BsdReply::Arguments(area) => match parse_procargs(area.as_slice()) {
            Ok(arguments) => arguments,
            Err(failure) => return BsdFlow::Fails(failure),
        },
        _ => return BsdFlow::Fails(ProcessIdentityError::Query),
    };
    let worker = is_worker_cmdline(arguments.as_slice());
    confirm_bsd_process(pid, first, executable, worker, replies)
}

/// The answer of a platform on which processes cannot be identified.
pub fn unsupported_snapshot() -> (r: ProcessIdentityError)
    ensures
        r == ProcessIdentityError::Security(
            "daemon process identity queries are unsupported on this Unix platform",
        ),
{
    ProcessIdentityError::Security(
        "daemon process identity queries are unsupported on this Unix platform",
    )
}

/// The answer of a platform on which processes cannot be signalled.
pub fn unsupported_termination() -> (r: ProcessIdentityError)
    ensures
        r == ProcessIdentityError::Security(
            "daemon process signaling is unsupported on this Unix platform",
        ),
{
    ProcessIdentityError::Security("daemon process signaling is unsupported on this Unix platform")
}

/// One step in dealing with a recorded process.
#[derive(Clone, Copy, Debug, PartialEq, Eq, Structural)]
pub enum ProcessAction {
    /// Take a handle through which exactly this process can be signalled.
    Prepare(u32),
    /// Observe the process.
    Query(u32),
    /// Signal the process through the handle.
    Terminate,
}

/// An answer to a [`ProcessAction`].
#[derive(Clone, Copy, Debug, PartialEq, Eq)]
pub enum ProcessReply {
    Prepared,
    Observed(Option<ProcessSnapshot>),
    Terminated,
    Failed(ProcessIdentityError),
}

/// How far dealing with a recorded process has come.
#[derive(Clone, Copy, Debug, PartialEq, Eq)]
pub enum InspectionFlow<T> {
    Asks(ProcessAction),
    Gives(T),
    Fails(ProcessIdentityError),
}

/// Verifies process ownership and identity, and makes signaling conditional on
/// two matching observations.
#[derive(Clone, Copy, Debug, PartialEq, Eq, Structural)]
pub struct ProcessInspector {
    pub executable_device: u64,
    pub executable_inode: u64,
}

/// Whether a snapshot shows the recorded worker.
pub open spec fn is_recorded_worker(
    inspector: ProcessInspector,
    uid: u32,
    metadata: PidMetadata,
    snapshot: ProcessSnapshot,
) -> bool {
    &&& snapshot.pid == metadata.pid
    &&& snapshot.uid == uid
    &&& snapshot.started_at == metadata.started_at
    &&& snapshot.executable_device == inspector.executable_device
    &&& snapshot.executable_inode == inspector.executable_inode
    &&& snapshot.worker
}

/// Observes the recorded process once.
pub open spec fn inspected(
    inspector: ProcessInspector,
    uid: u32,
    metadata: PidMetadata,
    replies: Seq<ProcessReply>,
    at: int,
) -> InspectionFlow<ProcessStatus> {
    if metadata.pid == 0 {
        InspectionFlow::Fails(
            ProcessIdentityError::Security("metadata contains an invalid process identifier"),
        )
    } else if at >= replies.len() {
        InspectionFlow::Asks(ProcessAction::Query(metadata.pid))
    } else {
        match replies[at] {
            ProcessReply::Observed(None) => InspectionFlow::Gives(ProcessStatus::Dead),
            ProcessReply::Observed(Some(snapshot)) => if is_recorded_worker(
                inspector,
                uid,
                metadata,
                snapshot,
            ) {
                InspectionFlow::Gives(ProcessStatus::Verified(snapshot))
            } else {
                InspectionFlow::Fails(
                    ProcessIdentityError::Security(
                        "PID does not match the recorded daemon worker identity",
                    ),
                )
            },
            ProcessReply::Failed(failure) => InspectionFlow::Fails(failure),
            _ => InspectionFlow::Fails(ProcessIdentityError::Query),
        }
    }
}

/// Signals the recorded process after two observations that agree.
pub open spec fn terminated(
    inspector: ProcessInspector,
    uid: u32,
    metadata: PidMetadata,
    replies: Seq<ProcessReply>,
) -> InspectionFlow<()> {
    if replies.len() == 0 {
        InspectionFlow::Asks(ProcessAction::Prepare(metadata.pid))
    } else {
        match replies[0] {
            ProcessReply::Prepared => match inspected(inspector, uid, metadata, replies, 1) {
                InspectionFlow::Asks(action) => InspectionFlow::Asks(action),
                InspectionFlow::Fails(failure) => InspectionFlow::Fails(failure),
                InspectionFlow::Gives(ProcessStatus::Dead) => InspectionFlow::Fails(
                    ProcessIdentityError::Security(
                        "process exited before termination verification",
                    ),
                ),
                InspectionFlow::Gives(ProcessStatus::Verified(first)) => terminated_after(
                    inspector,
                    uid,
                    metadata,
                    first,
                    replies,
                ),
            },
            ProcessReply::Failed(failure) => InspectionFlow::Fails(failure),
            _ => InspectionFlow::Fails(ProcessIdentityError::Query),
        }
    }
}

/// The part of a termination behind the first observation.
pub open spec fn terminated_after(
    inspector: ProcessInspector,
    uid: u32,
    metadata: PidMetadata,
    first: ProcessSnapshot,
    replies: Seq<ProcessReply>,
) -> InspectionFlow<()> {
    match inspected(inspector, uid, metadata, replies, 2) {
        InspectionFlow::Asks(action) => InspectionFlow::Asks(action),
        InspectionFlow::Fails(failure) => InspectionFlow::Fails(failure),
        InspectionFlow::Gives(ProcessStatus::Dead) => InspectionFlow::Fails(
            ProcessIdentityError::Security("process exited during termination verification"),
        ),
        InspectionFlow::Gives(ProcessStatus::Verified(second)) => if first != second {
            InspectionFlow::Fails(
                ProcessIdentityError::Security(
                    "process identity changed during termination verification",
                ),
            )
        } else if replies.len() <= 3 {
            InspectionFlow::Asks(ProcessAction::Terminate)
        } else {
            match replies[3] {
                ProcessReply::Terminated => InspectionFlow::Gives(()),
                ProcessReply::Failed(failure) => InspectionFlow::Fails(failure),
                _ => InspectionFlow::Fails(ProcessIdentityError::Query),
            }
        },
    }
}

impl ProcessInspector {
    /// Takes the identity of the current program: its path, and what an
    /// inspection of it showed.
    pub fn new(executable: Option<&[u8]>, facts: Option<FileFacts>) -> (r: Result<
        Self,
        ProcessIdentityError,
    >)
        ensures
            r == (match executable {
                None => Err(ProcessIdentityError::Query),
                Some(path) => if !unix_path::absolute_and_normalized(path@) {
                    Err(
                        ProcessIdentityError::Security(
                            "executable path is not absolute and normalized",
                        ),
                    )
                } else {
                    match facts {
                        None => Err(ProcessIdentityError::Query),
                        Some(facts) => if facts.kind != FileKind::Regular {
                            Err(
                                ProcessIdentityError::Security(
                                    "current executable is not a regular file",
                                ),
                            )
                        } else {
                            Ok(
                                ProcessInspector {
                                    executable_device: facts.device,
                                    executable_inode: facts.inode,
                                },
                            )
                        },
                    }
                },
            }),
    {
        let path = match executable {
            Some(path) => path,
            None => return Err(ProcessIdentityError::Query),
        };
        if let Err(failure) = validate_absolute_normalized_path(path) {
            return Err(failure);
        }
        let facts = match facts {
            Some(facts) => facts,
            None => return Err(ProcessIdentityError::Query),
        };
        if facts.kind != FileKind::Regular {
            return Err(ProcessIdentityError::Security("current executable is not a regular file"));
        }
        Ok(
            ProcessInspector {
                executable_device: facts.device,
                executable_inode: facts.inode,
            },
        )
    }

    fn verify_snapshot(self, uid: u32, metadata: &PidMetadata, snapshot: ProcessSnapshot) -> (r:
        bool)
        ensures
            r == is_recorded_worker(self, uid, *metadata, snapshot),
    {
        snapshot.pid == metadata.pid && snapshot.uid == uid && snapshot.started_at
            == metadata.started_at && snapshot.executable_device == self.executable_device
            && snapshot.executable_inode == self.executable_inode && snapshot.worker
    }

    fn inspect_at(
        self,
        uid: u32,
        metadata: &PidMetadata,
        replies: &[ProcessReply],
        at: usize,
    ) -> (r: InspectionFlow<ProcessStatus>)
        ensures
            r == inspected(self, uid, *metadata, replies@, at as int),
    {
        if metadata.pid == 0 {
            return InspectionFlow::Fails(
                ProcessIdentityError::Security("metadata contains an invalid process identifier"),
            );
        }
        if at >= replies.len() {
            return InspectionFlow::Asks(ProcessAction::Query(metadata.pid));
        }
        match replies[at] {
            ProcessReply::Observed(None) => InspectionFlow::Gives(ProcessStatus::Dead),
            ProcessReply::Observed(Some(snapshot)) => {
                if self.verify_snapshot(uid, metadata, snapshot) {
                    InspectionFlow::Gives(ProcessStatus::Verified(snapshot))
                } else {
                    InspectionFlow::Fails(
                        ProcessIdentityError::Security(
                            "PID does not match the recorded daemon worker identity",
                        ),
                    )
                }
            },
            ProcessReply::Failed(failure) => InspectionFlow::Fails(failure),
            _ => InspectionFlow::Fails(ProcessIdentityError::Query),
        }
    }

    /// Observes the recorded process for a given user.
    pub fn inspect_as(self, uid: u32, metadata: &PidMetadata, replies: &[ProcessReply]) -> (r:
        InspectionFlow<ProcessStatus>)
        ensures
            r == inspected(self, uid, *metadata, replies@, 0),
    {
        self.inspect_at(uid, metadata, replies, 0)
    }

    /// Observes the recorded process for the current user.
    pub fn inspect(self, metadata: &PidMetadata, replies: &[ProcessReply]) -> (r: InspectionFlow<
        ProcessStatus,
    >)
        ensures
            exists|uid: u32| #[trigger]
                is_current_user(uid) && r == inspected(self, uid, *metadata, replies@, 0),
    {
        let uid = current_user();
        self.inspect_as(uid, metadata, replies)
    }

    /// Terminates the recorded process for a given user.
    pub fn terminate_verified_as(
        self,
        uid: u32,
        metadata: &PidMetadata,
        replies: &[ProcessReply],
    ) -> (r: InspectionFlow<()>)
        ensures
            r == terminated(self, uid, *metadata, replies@),
    {
        if replies.len() == 0 {
            return InspectionFlow::Asks(ProcessAction::Prepare(metadata.pid));
        }
        match replies[0] {
            ProcessReply::Prepared => {},
            ProcessReply::Failed(failure) => return InspectionFlow::Fails(failure),
            _ => return InspectionFlow::Fails(ProcessIdentityError::Query),
        }
        let first = match self.inspect_at(uid, metadata, replies, 1) {
            InspectionFlow::Asks(action) => return InspectionFlow::Asks(action),
            InspectionFlow::Fails(failure) => return InspectionFlow::Fails(failure),
            InspectionFlow::Gives(ProcessStatus::Dead) => {
                return InspectionFlow::Fails(
                    ProcessIdentityError::Security("process exited before termination verification"),
                );
            },
            InspectionFlow::Gives(ProcessStatus::Verified(first)) => first,
        };
        let second = match self.inspect_at(uid, metadata, replies, 2) {
            InspectionFlow::Asks(action) => return InspectionFlow::Asks(action),
            InspectionFlow::Fails(failure) => return InspectionFlow::Fails(failure),
            InspectionFlow::Gives(ProcessStatus::Dead) => {
                return InspectionFlow::Fails(
                    ProcessIdentityError::Security("process exited during termination verification"),
                );
            },
            InspectionFlow::Gives(ProcessStatus::Verified(second)) => second,
        };
        if first != second {
            return InspectionFlow::Fails(
                ProcessIdentityError::Security(
                    "process identity changed during termination verification",
                ),
            );
        }
        if replies.len() <= 3 {
            return InspectionFlow::Asks(ProcessAction::Terminate);
        }
        match replies[3] {
            ProcessReply::Terminated => InspectionFlow::Gives(()),
            ProcessReply::Failed(failure) => InspectionFlow::Fails(failure),
            _ => InspectionFlow::Fails(ProcessIdentityError::Query),
        }
    }

    /// Terminates the recorded process for the current user.
    pub fn terminate_verified(self, metadata: &PidMetadata, replies: &[ProcessReply]) -> (r:
        InspectionFlow<()>)
        ensures
            exists|uid: u32| #[trigger]
                is_current_user(uid) && r == terminated(self, uid, *metadata, replies@),
    {
        let uid = current_user();
        self.terminate_verified_as(uid, metadata, replies)
    }
}

/// What the current process may record of itself.
pub open spec fn own_metadata(
    config_hash: ConfigHash,
    pid: u32,
    uid: u32,
    observed: Option<ProcessSnapshot>,
) -> Result<PidMetadata, ProcessIdentityError> {
    match observed {
        None => Err(
            ProcessIdentityError::Security("current worker process could not be queried"),
        ),
        Some(snapshot) => if snapshot.uid != uid || !snapshot.worker {
            Err(
                ProcessIdentityError::Security("current process is not the expected daemon worker"),
            )
        } else {
            Ok(PidMetadata { pid, config_hash, started_at: snapshot.started_at })
        },
    }
}

impl PidMetadata {
    /// Builds metadata from the kernel's identity for the current worker. This
    /// deliberately persists only pid/config_hash/start time.
    pub fn for_worker(
        config_hash: ConfigHash,
        pid: u32,
        uid: u32,
        observed: Option<ProcessSnapshot>,
    ) -> (r: Result<Self, ProcessIdentityError>)
        ensures
            r == own_metadata(config_hash, pid, uid, observed),
    {
        let snapshot = match observed {
            Some(snapshot) => snapshot,
            None => {
                return Err(
                    ProcessIdentityError::Security("current worker process could not be queried"),
                );
            },
        };
        if snapshot.uid != uid || !snapshot.worker {
            return Err(
                ProcessIdentityError::Security("current process is not the expected daemon worker"),
            );
        }
        Ok(PidMetadata { pid, config_hash, started_at: snapshot.started_at })
    }

    /// Builds metadata for the current process of the current user.
    pub fn for_current_worker(
        config_hash: ConfigHash,
        pid: u32,
        observed: Option<ProcessSnapshot>,
    ) -> (r: Result<Self, ProcessIdentityError>)
        ensures
            exists|uid: u32| #[trigger]
                is_current_user(uid) && r == own_metadata(config_hash, pid, uid, observed),
    {
        let uid = current_user();
        PidMetadata::for_worker(config_hash, pid, uid, observed)
    }
}

/// A process is signalled only after a handle was taken for it and then two
/// observations showed the same process, which is the recorded worker.
pub proof fn terminations_follow_two_matching_observations(
    inspector: ProcessInspector,
    uid: u32,
    metadata: PidMetadata,
    replies: Seq<ProcessReply>,
)
    requires
        terminated(inspector, uid, metadata, replies) == InspectionFlow::<()>::Asks(
            ProcessAction::Terminate,
        ),
    ensures
        metadata.pid != 0,
        replies.len() == 3,
        replies[0] == ProcessReply::Prepared,
        exists|snapshot: ProcessSnapshot| #[trigger]
            is_recorded_worker(inspector, uid, metadata, snapshot) && replies[1]
                == ProcessReply::Observed(Some(snapshot)) && replies[2] == ProcessReply::Observed(
                Some(snapshot),
            ),
{
    match replies[1] {
        ProcessReply::Observed(Some(snapshot)) => {
            assert(is_recorded_worker(inspector, uid, metadata, snapshot));
        },
        _ => {},
    }
}

/// Only a snapshot of the recorded worker is verified: the same process
/// identifier, owner, start time, program, and role.
pub proof fn verified_processes_are_the_recorded_worker(
    inspector: ProcessInspector,
    uid: u32,
    metadata: PidMetadata,
    snapshot: ProcessSnapshot,
)
    requires
        metadata.pid != 0,
    ensures
        inspected(
            inspector,
            uid,
            metadata,
            seq![ProcessReply::Observed(Some(snapshot))],
            0,
        ) == (if is_recorded_worker(inspector, uid, metadata, snapshot) {
            InspectionFlow::Gives(ProcessStatus::Verified(snapshot))
        } else {
            InspectionFlow::Fails(
                ProcessIdentityError::Security(
                    "PID does not match the recorded daemon worker identity",
                ),
            )
        }),
{
}

/// A worker that recorded itself is recognised as long as it is observed
/// unchanged.
pub proof fn recorded_workers_are_recognised(
    inspector: ProcessInspector,
    config_hash: ConfigHash,
    pid: u32,
    uid: u32,
    snapshot: ProcessSnapshot,
)
    requires
        snapshot.pid == pid,
        snapshot.executable_device == inspector.executable_device,
        snapshot.executable_inode == inspector.executable_inode,
    ensures
        own_metadata(config_hash, pid, uid, Some(snapshot)) matches Ok(metadata)
            ==> is_recorded_worker(inspector, uid, metadata, snapshot),
{
}

proof fn lemma_last_index(before: Seq<u8>, wanted: u8, after: Seq<u8>)
    requires
        forall|i: int| 0 <= i < after.len() ==> #[trigger] after[i] != wanted,
    ensures
        last_index(before.push(wanted) + after, wanted) == Some(before.len() as int),
    decreases after.len(),
{
    let whole = before.push(wanted) + after;
    if after.len() == 0 {
        assert(whole =~= before.push(wanted));
    } else {
        let shorter = after.drop_last();
        assert forall|i: int| 0 <= i < shorter.len() implies #[trigger] shorter[i] != wanted by {
            assert(shorter[i] == after[i]);
        }
        assert(after[after.len() - 1] != wanted);
        lemma_last_index(before, wanted, shorter);
        assert(whole.drop_last() =~= before.push(wanted) + shorter);
    }
}

proof fn lemma_no_index(source: Seq<u8>, wanted: u8)
    requires
        forall|i: int| 0 <= i < source.len() ==> #[trigger] source[i] != wanted,
    ensures
        last_index(source, wanted) is None,
    decreases source.len(),
{
    if source.len() > 0 {
        assert(source[source.len() - 1] != wanted);
        lemma_no_index(source.drop_last(), wanted);
    }
}

/// Whatever stands before the last closing parenthesis is the process name; behind
/// it the first word is the state letter and the twentieth the start in ticks.
pub proof fn statistics_follow_the_process_name(
    name: Seq<u8>,
    fields: Seq<u8>,
    source: &[u8],
    r: Result<(u8, u64), ProcessIdentityError>,
    ticks: nat,
)
    requires
        call_ensures(parse_linux_stat, (source,), r),
        forall|i: int| 0 <= i < fields.len() ==> #[trigger] fields[i] != 41,
    ensures
        source@ == fields ==> r is Err,
        source@ == name.push(41) + fields ==> {
            let words = bytes::words(fields);
            &&& r is Ok <==> words.len() >= 20 && words[0].len() == 1 && bytes::unsigned(
                words[19],
                u64::MAX as nat,
            ) is Some
            &&& words.len() >= 20 && words[0].len() == 1 && bytes::unsigned(
                words[19],
                u64::MAX as nat,
            ) == Some(ticks) ==> r == Ok::<(u8, u64), ProcessIdentityError>(
                (words[0][0], ticks as u64),
            )
        },
{
    if source@ == fields {
        lemma_no_index(fields, 41);
    }
    if source@ == name.push(41) + fields {
        lemma_last_index(name, 41, fields);
        assert(source@.skip(name.len() as int + 1) =~= fields);
    }
}

proof fn lemma_first_line(lines: Seq<Seq<u8>>, prefix: Seq<u8>, k: int)
    ensures
        0 <= k < lines.len() && bytes::begins_with(lines[k], prefix) && (forall|i: int|
            0 <= i < k ==> !bytes::begins_with(#[trigger] lines[i], prefix)) ==> after_prefix(
            lines,
            prefix,
        ) == Some(lines[k].skip(prefix.len() as int)),
        (forall|i: int|
            0 <= i < lines.len() ==> !bytes::begins_with(#[trigger] lines[i], prefix))
            ==> after_prefix(lines, prefix) is None,
    decreases lines.len(),
{
    if lines.len() > 0 && !bytes::begins_with(lines[0], prefix) {
        let tail = lines.skip(1);
        lemma_first_line(tail, prefix, k - 1);
        assert forall|i: int| 0 <= i < tail.len() implies #[trigger] tail[i] == lines[i + 1] by {}
    }
}

/// The real user of a process is the first number on the first line that begins
/// with `Uid:`.
pub proof fn users_are_read_from_their_line(
    source: &[u8],
    r: Result<u32, ProcessIdentityError>,
    k: int,
    uid: nat,
)
    requires
        call_ensures(parse_linux_status_uid, (source,), r),
    ensures
        !vstd::utf8::valid_utf8(source@) ==> r is Err,
        (forall|i: int|
            0 <= i < bytes::lines(source@).len() ==> !bytes::begins_with(
                #[trigger] bytes::lines(source@)[i],
                vstd::utf8::encode_utf8("Uid:"@),
            )) ==> r is Err,
        vstd::utf8::valid_utf8(source@) && 0 <= k < bytes::lines(source@).len()
            && bytes::begins_with(bytes::lines(source@)[k], vstd::utf8::encode_utf8("Uid:"@)) && (
        forall|i: int|
            0 <= i < k ==> !bytes::begins_with(
                #[trigger] bytes::lines(source@)[i],
                vstd::utf8::encode_utf8("Uid:"@),
            )) ==> {
            let values = bytes::words(
                bytes::lines(source@)[k].skip(vstd::utf8::encode_utf8("Uid:"@).len() as int),
            );
            &&& values.len() == 0 ==> r is Err
            &&& values.len() > 0 ==> (r is Ok <==> bytes::unsigned(values[0], u32::MAX as nat)
                is Some)
            &&& values.len() > 0 && bytes::unsigned(values[0], u32::MAX as nat) == Some(uid) ==> r
                == Ok::<u32, ProcessIdentityError>(uid as u32)
        },
{
    lemma_first_line(bytes::lines(source@), vstd::utf8::encode_utf8("Uid:"@), k);
}

/// The boot time is the number on the first line that begins with `btime `.
pub proof fn boot_times_are_read_from_their_line(
    system_stat: Seq<u8>,
    k: int,
    seconds: nat,
)
    ensures
        (forall|i: int|
            0 <= i < bytes::lines(system_stat).len() ==> !bytes::begins_with(
                #[trigger] bytes::lines(system_stat)[i],
                vstd::utf8::encode_utf8("btime "@),
            )) ==> boot_time(system_stat) is Err,
        0 <= k < bytes::lines(system_stat).len() && bytes::begins_with(
            bytes::lines(system_stat)[k],
            vstd::utf8::encode_utf8("btime "@),
        ) && (forall|i: int|
            0 <= i < k ==> !bytes::begins_with(
                #[trigger] bytes::lines(system_stat)[i],
                vstd::utf8::encode_utf8("btime "@),
            )) ==> {
            let value = bytes::lines(system_stat)[k].skip(
                vstd::utf8::encode_utf8("btime "@).len() as int,
            );
            &&& boot_time(system_stat) is Ok <==> bytes::unsigned(value, u64::MAX as nat) is Some
            &&& bytes::unsigned(value, u64::MAX as nat) == Some(seconds) ==> boot_time(system_stat)
                == Ok::<u64, ProcessIdentityError>(seconds as u64)
        },
{
    lemma_first_line(bytes::lines(system_stat), vstd::utf8::encode_utf8("btime "@), k);
}

/// A process started its ticks behind the boot, in nanoseconds rounded down.
pub proof fn processes_start_their_ticks_behind_the_boot(
    start_ticks: u64,
    system_stat: &[u8],
    ticks_per_second: u64,
    boot_seconds: u64,
    r: Result<SystemTime, ProcessIdentityError>,
)
    requires
        call_ensures(linux_start_time, (start_ticks, system_stat, ticks_per_second), r),
        boot_time(system_stat@) == Ok::<u64, ProcessIdentityError>(boot_seconds),
        ticks_per_second > 0,
        boot_seconds + start_ticks / ticks_per_second <= u64::MAX,
    ensures
        r is Ok <==> boot_seconds + start_ticks / ticks_per_second <= 9_223_372_036_854_775_807,
        r matches Ok(started) ==> started.nanoseconds < 1_000_000_000 && started.seconds
            * 1_000_000_000 + started.nanoseconds == boot_seconds * 1_000_000_000 + (start_ticks
            * 1_000_000_000) / (ticks_per_second as int),
{
    let t = ticks_per_second as int;
    let q = (start_ticks / ticks_per_second) as int;
    let m = (start_ticks % ticks_per_second) as int;
    vstd::arithmetic::div_mod::lemma_fundamental_div_mod(start_ticks as int, t);
    assert(start_ticks as int == t * q + m);
    let n: int = 1_000_000_000;
    let part = m * n / t;
    assert(start_ticks * n == t * (q * n) + m * n) by (nonlinear_arith)
        requires
            start_ticks as int == t * q + m,
    ;
    vstd::arithmetic::div_mod::lemma_hoist_over_denominator(m * n, q * n, t as nat);
    assert((start_ticks * n) / t == q * n + part) by {
        assert(t * (q * n) == (q * n) * t) by (nonlinear_arith);
    }
    assert(0 <= part < n) by (nonlinear_arith)
        requires
            0 <= m < t,
            n == 1_000_000_000,
            part == m * n / t,
    ;
    let whole = boot_seconds + q;
    let total = whole * n + part;
    assert(total / n == whole && total % n == part) by (nonlinear_arith)
        requires
            total == whole * n + part,
            0 <= part < n,
            n == 1_000_000_000,
    ;
}

proof fn lemma_zeros_are_no_pieces(tail: Seq<u8>)
    ensures
        bytes::split(tail, Separator::Byte(0)).len() > 0,
        (forall|i: int|
            0 <= i < bytes::split(tail, Separator::Byte(0)).len() ==> (#[trigger] bytes::split(
                tail,
                Separator::Byte(0),
            )[i]).len() == 0) <==> forall|i: int| 0 <= i < tail.len() ==> #[trigger] tail[i] == 0,
    decreases tail.len(),
{
    let pieces = bytes::split(tail, Separator::Byte(0));
    if tail.len() > 0 {
        let head = tail.drop_last();
        lemma_zeros_are_no_pieces(head);
        let before = bytes::split(head, Separator::Byte(0));
        if tail.last() == 0 {
            assert(pieces =~= before.push(Seq::empty()));
            assert forall|i: int| 0 <= i < before.len() implies #[trigger] pieces[i]
                == before[i] by {}
            assert forall|i: int| 0 <= i < head.len() implies #[trigger] head[i] == tail[i] by {}
            if forall|i: int| 0 <= i < pieces.len() ==> (#[trigger] pieces[i]).len() == 0 {
                assert forall|i: int| 0 <= i < before.len() implies (#[trigger] before[i]).len()
                    == 0 by {
                    assert(pieces[i] == before[i]);
                }
                assert forall|i: int| 0 <= i < tail.len() implies #[trigger] tail[i] == 0 by {
                    if i < head.len() {
                        assert(head[i] == 0);
                    }
                }
            }
            if forall|i: int| 0 <= i < tail.len() ==> #[trigger] tail[i] == 0 {
                assert forall|i: int| 0 <= i < pieces.len() implies (#[trigger] pieces[i]).len()
                    == 0 by {
                    if i < before.len() {
                        assert(before[i].len() == 0);
                    }
                }
            }
        } else {
            assert(pieces[pieces.len() - 1].len() > 0);
            assert(tail[tail.len() - 1] != 0);
        }
    } else {
        assert(pieces =~= seq![Seq::<u8>::empty()]);
    }
}

/// A command line is a worker's where it has a program, then `__daemon`, and then
/// nothing but zero bytes.
pub proof fn workers_have_one_role_argument(
    program: Seq<u8>,
    role: Seq<u8>,
    tail: Seq<u8>,
    source: &[u8],
    r: bool,
)
    requires
        call_ensures(is_worker_cmdline, (source,), r),
        forall|i: int| 0 <= i < program.len() ==> #[trigger] program[i] != 0,
        forall|i: int| 0 <= i < role.len() ==> #[trigger] role[i] != 0,
    ensures
        source@ == program ==> !r,
        source@ == program.push(0) + role ==> (r <==> program.len() > 0 && role
            == vstd::utf8::encode_utf8("__daemon"@)),
        source@ == program.push(0) + (role.push(0) + tail) ==> (r <==> program.len() > 0 && role
            == vstd::utf8::encode_utf8("__daemon"@) && forall|i: int|
            0 <= i < tail.len() ==> #[trigger] tail[i] == 0),
{
    let separator = Separator::Byte(0);
    assert forall|i: int| 0 <= i < program.len() implies !bytes::separates(
        separator,
        #[trigger] program[i],
    ) by {}
    assert forall|i: int| 0 <= i < role.len() implies !bytes::separates(
        separator,
        #[trigger] role[i],
    ) by {}
    bytes::separators_part_the_pieces(program, role, 0, separator);
    bytes::separators_part_the_pieces(role, tail, 0, separator);
    bytes::separators_part_the_pieces(program, role.push(0) + tail, 0, separator);
    let pieces = bytes::split(source@, separator);
    if source@ == program.push(0) + role {
        assert(pieces =~= seq![program, role]);
    }
    if source@ == program.push(0) + (role.push(0) + tail) {
        let rest = bytes::split(tail, separator);
        assert(pieces =~= seq![program, role] + rest);
        lemma_zeros_are_no_pieces(tail);
        assert forall|i: int| 0 <= i < rest.len() implies #[trigger] rest[i] == pieces[i + 2] by {}
        if r {
            assert forall|i: int| 0 <= i < rest.len() implies (#[trigger] rest[i]).len() == 0 by {
                assert(pieces[i + 2].len() == 0);
            }
        }
        if forall|i: int| 0 <= i < rest.len() ==> (#[trigger] rest[i]).len() == 0 {
            assert forall|i: int| 2 <= i < pieces.len() implies (#[trigger] pieces[i]).len()
                == 0 by {
                assert(rest[i - 2].len() == 0);
            }
        }
    }
}

proof fn lemma_scan(before: Seq<u8>, run: Seq<u8>, after: Seq<u8>, zero: bool, at: int)
    requires
        forall|i: int| 0 <= i < run.len() ==> ((#[trigger] run[i] == 0) != zero),
        after.len() == 0 || (after[0] == 0) == zero,
        before.len() <= at <= before.len() + run.len(),
    ensures
        scan(before + run + after, at, zero) == before.len() + run.len(),
    decreases before.len() + run.len() - at,
{
    let whole = before + run + after;
    if at < before.len() + run.len() {
        assert(whole[at] == run[at - before.len()]);
        lemma_scan(before, run, after, zero, at + 1);
    } else if after.len() > 0 {
        assert(whole[at] == after[0]);
    }
}

/// An argument area that counts two arguments gives those two, wherever the path
/// of the program and the padding end; another count gives none, and an area that
/// ends too early is refused.
pub proof fn argument_areas_hold_two_arguments(
    path: Seq<u8>,
    padding: Seq<u8>,
    first: Seq<u8>,
    between: Seq<u8>,
    second: Seq<u8>,
    rest: Seq<u8>,
    source: &[u8],
    r: Result<Vec<u8>, ProcessIdentityError>,
)
    requires
        call_ensures(parse_procargs, (source,), r),
        forall|i: int| 0 <= i < path.len() ==> #[trigger] path[i] != 0,
        forall|i: int| 0 <= i < padding.len() ==> #[trigger] padding[i] == 0,
        forall|i: int| 0 <= i < first.len() ==> #[trigger] first[i] != 0,
        forall|i: int| 0 <= i < between.len() ==> #[trigger] between[i] == 0,
        forall|i: int| 0 <= i < second.len() ==> #[trigger] second[i] != 0,
        padding.len() > 0,
        first.len() > 0,
        between.len() > 0,
        second.len() > 0,
    ensures
        source@ == seq![2u8, 0, 0, 0] + path + padding + first + between + second + seq![0u8]
            + rest ==> (r matches Ok(found) && found@ == first.push(0) + second.push(0)),
        source@ == seq![2u8, 0, 0, 0] + path + padding + first + between + second ==> r is Err,
        source@.len() < 4 ==> r is Err,
        source@.len() >= 4 && !(source@[0] == 2 && source@[1] == 0 && source@[2] == 0 && source@[3]
            == 0) ==> (r matches Ok(found) && found@.len() == 0),
{
    let count = seq![2u8, 0u8, 0u8, 0u8];
    if source@.len() >= 4 && source@.take(4) == count {
        assert(source@.take(4)[0] == source@[0] && source@.take(4)[1] == source@[1]
            && source@.take(4)[2] == source@[2] && source@.take(4)[3] == source@[3]);
    }
    let end = seq![0u8] + rest;
    let ended = count + path + padding + first + between + second + seq![0u8] + rest;
    let cut = count + path + padding + first + between + second;
    if source@ == ended || source@ == cut {
        let tail = if source@ == ended {
            end
        } else {
            Seq::<u8>::empty()
        };
        let whole = source@;
        let a = count;
        let b = a + path;
        let c = b + padding;
        let d = c + first;
        let e = d + between;
        assert(whole =~= a + path + (padding + first + between + second + tail));
        lemma_scan(a, path, padding + first + between + second + tail, true, 4);
        assert((padding + first + between + second + tail)[0] == padding[0]);
        assert(whole =~= b + padding + (first + between + second + tail));
        assert((first + between + second + tail)[0] == first[0]);
        lemma_scan(b, padding, first + between + second + tail, false, b.len() as int);
        assert(whole =~= c + first + (between + second + tail));
        assert((between + second + tail)[0] == between[0]);
        lemma_scan(c, first, between + second + tail, true, c.len() as int);
        assert(whole =~= d + between + (second + tail));
        assert((second + tail)[0] == second[0]);
        lemma_scan(d, between, second + tail, false, d.len() as int);
        assert(whole =~= e + second + tail);
        lemma_scan(e, second, tail, true, e.len() as int);
        assert(whole.take(4) =~= count);
        assert(whole.subrange(c.len() as int, d.len() as int) =~= first);
        assert(whole.subrange(e.len() as int, (e.len() + second.len()) as int) =~= second);
    }
}

/// A file about a process is read to the end exactly where it is a regular file of
/// the user's, stays the same from before it is opened until after it is read, and
/// holds at most a mebibyte.
pub proof fn process_files_are_read_unchanged(
    place: Place,
    uid: u32,
    replies: &[FileReply],
    at: usize,
    r: ProcessFlow<()>,
)
    requires
        at + 5 <= replies@.len(),
        call_ensures(read_validated_proc_file, (place, uid, replies, at), r),
    ensures
        r is Gives <==> {
            &&& replies@[at as int] matches FileReply::Facts(before) && before.kind is Regular
                && before.uid == uid && (replies@[at + 2] matches FileReply::Facts(opened)
                && opened.device == before.device && opened.inode == before.inode) && (replies@[at
                + 4] matches FileReply::Facts(after) && after.device == before.device
                && after.inode == before.inode)
            &&& replies@[at + 1] is Done
            &&& replies@[at + 3] matches FileReply::Bytes(read) && read@.len() <= 1_048_576
        },
        r !is Gives ==> r is Fails,
{
}

/// A program is observed exactly where its link is the user's symbolic link, leads
/// to an absolute path without a way upwards and ends at a regular file.
pub proof fn programs_are_regular_files(uid: u32, replies: Seq<FileReply>, at: int)
    requires
        0 <= at,
        at + 3 <= replies.len(),
    ensures
        executable_observed(uid, replies, at) is Gives <==> {
            &&& replies[at] matches FileReply::Facts(link) && link.kind is Symlink && link.uid
                == uid
            &&& replies[at + 1] matches FileReply::Path(path)
                && unix_path::absolute_and_normalized(path@)
            &&& replies[at + 2] matches FileReply::Facts(target) && target.kind is Regular
        },
        executable_observed(uid, replies, at) matches ProcessFlow::Gives(target) ==> replies[at + 2]
            == FileReply::Facts(target),
        executable_observed(uid, replies, at) !is Gives ==> executable_observed(uid, replies, at)
            is Fails,
{
}

/// A process is recorded from its own files: the directory is the user's and the
/// same at the end, the state is neither dead nor waiting to be reaped, and each
/// value comes from its file.
pub proof fn processes_are_recorded_from_their_files(
    pid: u32,
    uid: u32,
    replies: &[FileReply],
    record: LinuxRecord,
)
    requires
        call_ensures(
            record_linux_process,
            (pid, uid, replies),
            ProcessFlow::Gives(Some(record)),
        ),
    ensures
        record.pid == pid,
        replies@.len() > 20,
        replies@[0] matches FileReply::Facts(before) && before.kind is Directory && before.uid
            == uid && (replies@[19] matches FileReply::Facts(after) && after.kind is Directory
            && after.uid == uid && after.device == before.device && after.inode == before.inode),
        linux_stat(proc_bytes(replies@, 1)) matches Ok(shown) && shown.1 == record.start_ticks
            && shown.0 != 90 && shown.0 != 88,
        linux_status_uid(proc_bytes(replies@, 6)) == Ok::<u32, ProcessIdentityError>(record.uid),
        record.worker == worker_cmdline(proc_bytes(replies@, 11)),
        replies@[18] matches FileReply::Facts(program) && program.kind is Regular && program.device
            == record.executable_device && program.inode == record.executable_inode,
        replies@[20] matches FileReply::Bytes(system) && boot_time(system@) == Ok::<
            u64,
            ProcessIdentityError,
        >(record.boot_seconds),
{
}

/// Nothing is recorded of a process that is gone, dead or waiting to be reaped,
/// and of nothing else.
pub proof fn only_ended_processes_have_no_record(pid: u32, uid: u32, replies: Seq<FileReply>)
    requires
        replies.len() > 0,
    ensures
        replies[0] is Missing ==> linux_recorded(pid, uid, replies) == ProcessFlow::Gives(
            None::<LinuxRecord>,
        ),
        linux_recorded(pid, uid, replies) == ProcessFlow::Gives(None::<LinuxRecord>) ==> replies[0]
            is Missing || (linux_stat(proc_bytes(replies, 1)) matches Ok(shown) && (shown.0 == 90
            || shown.0 == 88)),
        replies[0] matches FileReply::Facts(before) ==> before.kind is Directory && before.uid
            == uid && proc_file_read(Place::ProcessStat, uid, replies, 1) is Gives && (linux_stat(
            proc_bytes(replies, 1),
        ) matches Ok(shown) && (shown.0 == 90 || shown.0 == 88)) ==> linux_recorded(
            pid,
            uid,
            replies,
        ) == ProcessFlow::Gives(None::<LinuxRecord>),
{
}

/// A recorded process is dated by its ticks and keeps everything else.
pub proof fn records_are_dated(record: LinuxRecord, ticks_per_second: u64)
    ensures
        linux_dated(record, ticks_per_second) matches ProcessFlow::Gives(found) ==> (found matches
            Some(snapshot) && snapshot.pid == record.pid && snapshot.uid == record.uid
            && snapshot.executable_device == record.executable_device && snapshot.executable_inode
            == record.executable_inode && snapshot.worker == record.worker && started_after_boot(
            record.start_ticks,
            record.boot_seconds,
            ticks_per_second,
        ) == Ok::<SystemTime, ProcessIdentityError>(snapshot.started_at)),
        linux_dated(record, ticks_per_second) is Fails <==> started_after_boot(
            record.start_ticks,
            record.boot_seconds,
            ticks_per_second,
        ) is Err,
        ticks_per_second == 0 ==> linux_dated(record, ticks_per_second) is Fails,
{
}

/// A process is observed by its record, program and arguments exactly where each
/// is in order and the record is the same afterwards.
pub proof fn records_stay_the_same_during_an_observation(
    pid: u32,
    replies: &[BsdReply],
    r: BsdFlow<Option<ProcessSnapshot>>,
    snapshot: ProcessSnapshot,
)
    requires
        call_ensures(macos_process_snapshot, (pid, replies), r),
        replies@.len() >= 5,
    ensures
        r == BsdFlow::Gives(None::<ProcessSnapshot>) <==> replies@[0] is Gone,
        r == BsdFlow::Gives(Some(snapshot)) ==> {
            &&& snapshot.pid == pid
            &&& replies@[0] matches BsdReply::Info(first) && snapshot.uid == first.uid && (
            replies@[4] matches BsdReply::Info(second) && second.record@ == first.record@)
                && snapshot.started_at.seconds * 1_000_000_000 + snapshot.started_at.nanoseconds
                == first.start_seconds * 1_000_000_000 + first.start_microseconds * 1_000
            &&& replies@[1] matches BsdReply::Path(path) && unix_path::absolute_and_normalized(
                unterminated(path@),
            )
            &&& replies@[2] matches BsdReply::Facts(program) && program.kind is Regular
                && program.device == snapshot.executable_device && program.inode
                == snapshot.executable_inode
            &&& replies@[3] matches BsdReply::Arguments(area) && (procargs(area@) matches Ok(
                arguments,
            ) && snapshot.worker == worker_cmdline(arguments))
        },
        r !is Gives ==> r is Fails,
        ({
            &&& replies@[0] matches BsdReply::Info(first) && first.start_seconds <= 1_000_000_000_000
                && first.start_microseconds < 1_000_000 && (replies@[4] matches BsdReply::Info(
                second,
            ) && second.record@ == first.record@)
            &&& replies@[1] matches BsdReply::Path(path) && unix_path::absolute_and_normalized(
                unterminated(path@),
            )
            &&& replies@[2] matches BsdReply::Facts(program) && program.kind is Regular
            &&& replies@[3] matches BsdReply::Arguments(area) && procargs(area@) is Ok
        }) ==> r is Gives,
{
}

/// A path loses one zero byte at its end, and nothing else.
pub proof fn terminators_are_stripped_once(path: Seq<u8>)
    ensures
        unterminated(path.push(0)) == path,
        path.len() == 0 || path.last() != 0 ==> unterminated(path) == path,
{
    assert(path.push(0).drop_last() =~= path);
}

/// A process is the recorded worker exactly where identifier, user, start, program
/// and role all agree.
pub proof fn workers_agree_in_everything(
    inspector: ProcessInspector,
    uid: u32,
    metadata: &PidMetadata,
    replies: &[ProcessReply],
    r: InspectionFlow<ProcessStatus>,
    snapshot: ProcessSnapshot,
)
    requires
        call_ensures(ProcessInspector::inspect_as, (inspector, uid, metadata, replies), r),
    ensures
        metadata.pid == 0 ==> r is Fails,
        metadata.pid != 0 && replies@.len() == 0 ==> r == InspectionFlow::<ProcessStatus>::Asks(
            ProcessAction::Query(metadata.pid),
        ),
        metadata.pid != 0 && replies@.len() > 0 ==> {
            &&& r == InspectionFlow::Gives(ProcessStatus::Dead) <==> replies@[0]
                == ProcessReply::Observed(None)
            &&& r == InspectionFlow::Gives(ProcessStatus::Verified(snapshot)) <==> replies@[0]
                == ProcessReply::Observed(Some(snapshot)) && snapshot.pid == metadata.pid
                && snapshot.uid == uid && snapshot.started_at == metadata.started_at
                && snapshot.executable_device == inspector.executable_device
                && snapshot.executable_inode == inspector.executable_inode && snapshot.worker
            &&& r !is Gives ==> r is Fails
        },
{
}

/// A process is signalled after a handle was taken and two observations agreed,
/// and then the signal's own outcome counts.
pub proof fn agreeing_observations_lead_to_the_signal(
    inspector: ProcessInspector,
    uid: u32,
    metadata: &PidMetadata,
    replies: &[ProcessReply],
    r: InspectionFlow<()>,
    snapshot: ProcessSnapshot,
)
    requires
        call_ensures(
            ProcessInspector::terminate_verified_as,
            (inspector, uid, metadata, replies),
            r,
        ),
        metadata.pid != 0,
    ensures
        replies@.len() == 0 ==> r == InspectionFlow::<()>::Asks(
            ProcessAction::Prepare(metadata.pid),
        ),
        replies@.len() > 0 && replies@[0] !is Prepared ==> r is Fails,
        ({
            &&& replies@.len() >= 3
            &&& replies@[0] is Prepared
            &&& replies@[1] == ProcessReply::Observed(Some(snapshot))
            &&& replies@[2] == ProcessReply::Observed(Some(snapshot))
            &&& snapshot.pid == metadata.pid && snapshot.uid == uid && snapshot.started_at
                == metadata.started_at && snapshot.executable_device
                == inspector.executable_device && snapshot.executable_inode
                == inspector.executable_inode && snapshot.worker
        }) ==> {
            &&& replies@.len() == 3 ==> r == InspectionFlow::<()>::Asks(ProcessAction::Terminate)
            &&& replies@.len() > 3 ==> (r is Gives <==> replies@[3] is Terminated)
        },
        r is Gives ==> replies@.len() > 3 && replies@[3] is Terminated && replies@[0] is Prepared
            && replies@[1] is Observed && replies@[1] == replies@[2],
{
}

/// A worker records itself exactly where it was observed as the user's worker,
/// with the time at which it started.
pub proof fn workers_record_their_own_start(
    config_hash: ConfigHash,
    pid: u32,
    uid: u32,
    observed: Option<ProcessSnapshot>,
    r: Result<PidMetadata, ProcessIdentityError>,
)
    requires
        call_ensures(PidMetadata::for_worker, (config_hash, pid, uid, observed), r),
    ensures
        r is Ok <==> (observed matches Some(snapshot) && snapshot.uid == uid && snapshot.worker),
        r matches Ok(metadata) ==> metadata.pid == pid && metadata.config_hash == config_hash && (
        observed matches Some(snapshot) && metadata.started_at == snapshot.started_at),
{
}

/// An observation is the record of the same answers with its start dated.
pub proof fn observations_are_dated_records(
    pid: u32,
    uid: u32,
    ticks_per_second: u64,
    replies: &[FileReply],
    recorded: ProcessFlow<Option<LinuxRecord>>,
    observed: ProcessFlow<Option<ProcessSnapshot>>,
)
    requires
        call_ensures(record_linux_process, (pid, uid, replies), recorded),
        call_ensures(observe_linux_process, (pid, uid, ticks_per_second, replies), observed),
    ensures
        recorded matches ProcessFlow::Asks(action) ==> observed == ProcessFlow::<
            Option<ProcessSnapshot>,
        >::Asks(action),
        recorded matches ProcessFlow::Fails(failure) ==> observed == ProcessFlow::<
            Option<ProcessSnapshot>,
        >::Fails(failure),
        recorded == ProcessFlow::Gives(None::<LinuxRecord>) <==> observed == ProcessFlow::Gives(
            None::<ProcessSnapshot>,
        ),
        recorded matches ProcessFlow::Gives(Some(record)) ==> (observed matches ProcessFlow::Gives(
            Some(snapshot),
        ) ==> snapshot.pid == record.pid && snapshot.uid == record.uid
            && snapshot.executable_device == record.executable_device
            && snapshot.executable_inode == record.executable_inode && snapshot.worker
            == record.worker && started_after_boot(
            record.start_ticks,
            record.boot_seconds,
            ticks_per_second,
        ) == Ok::<SystemTime, ProcessIdentityError>(snapshot.started_at)),
{
}

} // verus!
