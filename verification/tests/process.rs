use mcp_cli::config::ConfigHash;
use mcp_cli::daemon::files::{FileAction, FileFacts, FileKind, FileReply, Place};
use mcp_cli::daemon::process::{
    argument_limit_is_safe, bsd_query_outcome, is_worker_cmdline, linux_process_snapshot,
    linux_start_time, macos_process_snapshot, observe_linux_process, parse_linux_stat,
    parse_linux_status_uid, parse_procargs, read_validated_proc_file, strip_terminator,
    unsupported_snapshot, unsupported_termination, validate_absolute_normalized_path, BsdAction,
    BsdFlow, BsdInfo, BsdReply, InspectionFlow, ProcessAction, ProcessFlow, ProcessIdentityError,
    ProcessInspector, ProcessReply, ProcessSnapshot, ProcessStatus,
};
use mcp_cli::daemon::PidMetadata;
use mcp_cli::time::SystemTime;

const UID: u32 = 1000;

fn sample_metadata() -> PidMetadata {
    PidMetadata {
        pid: 4242,
        config_hash: ConfigHash([5; 32]),
        started_at: SystemTime::after_epoch(1_700_000_000, 0).unwrap(),
    }
}

fn matching_snapshot(metadata: &PidMetadata) -> ProcessSnapshot {
    ProcessSnapshot {
        pid: metadata.pid,
        uid: UID,
        started_at: metadata.started_at,
        executable_device: 11,
        executable_inode: 22,
        worker: true,
    }
}

fn later(metadata: &PidMetadata) -> SystemTime {
    SystemTime {
        seconds: metadata.started_at.seconds + 1,
        ..metadata.started_at
    }
}

const INSPECTOR: ProcessInspector = ProcessInspector {
    executable_device: 11,
    executable_inode: 22,
};

fn own_facts(inode: u64, kind: FileKind) -> FileFacts {
    FileFacts {
        kind,
        uid: UID,
        mode: 0o444,
        device: 3,
        inode,
        length: 0,
    }
}

#[test]
fn process_identity_rejects_reused_pid_wrong_owner_executable_and_role() {
    let metadata = sample_metadata();
    let matching = matching_snapshot(&metadata);
    let mut reused = matching;
    reused.started_at = later(&metadata);
    let mut wrong_owner = matching;
    wrong_owner.uid = wrong_owner.uid.wrapping_add(1);
    let mut wrong_executable = matching;
    wrong_executable.executable_inode += 1;
    let mut wrong_role = matching;
    wrong_role.worker = false;

    for snapshot in [reused, wrong_owner, wrong_executable, wrong_role] {
        let replies = [ProcessReply::Observed(Some(snapshot))];
        assert!(matches!(
            INSPECTOR.inspect_as(UID, &metadata, &replies),
            InspectionFlow::Fails(ProcessIdentityError::Security(_))
        ));
    }

    assert_eq!(
        INSPECTOR.inspect_as(UID, &metadata, &[ProcessReply::Observed(None)]),
        InspectionFlow::Gives(ProcessStatus::Dead)
    );
    assert_eq!(
        INSPECTOR.inspect_as(UID, &metadata, &[ProcessReply::Observed(Some(matching))]),
        InspectionFlow::Gives(ProcessStatus::Verified(matching))
    );
    assert_eq!(
        INSPECTOR.inspect_as(UID, &metadata, &[]),
        InspectionFlow::Asks(ProcessAction::Query(4242))
    );
    let failed = [ProcessReply::Failed(ProcessIdentityError::Query)];
    assert_eq!(
        INSPECTOR.inspect_as(UID, &metadata, &failed),
        InspectionFlow::Fails(ProcessIdentityError::Query)
    );
}

#[test]
fn termination_occurs_only_after_two_matching_identity_observations() {
    let metadata = sample_metadata();
    let matching = matching_snapshot(&metadata);
    let seen = ProcessReply::Observed(Some(matching));

    let mut replies = Vec::new();
    let mut asked = Vec::new();
    for reply in [ProcessReply::Prepared, seen, seen, ProcessReply::Terminated] {
        match INSPECTOR.terminate_verified_as(UID, &metadata, &replies) {
            InspectionFlow::Asks(action) => asked.push(action),
            other => panic!("{other:?}"),
        }
        replies.push(reply);
    }
    assert_eq!(
        INSPECTOR.terminate_verified_as(UID, &metadata, &replies),
        InspectionFlow::Gives(())
    );
    assert_eq!(
        asked,
        vec![
            ProcessAction::Prepare(4242),
            ProcessAction::Query(4242),
            ProcessAction::Query(4242),
            ProcessAction::Terminate,
        ]
    );

    let mut reused = matching;
    reused.started_at = later(&metadata);
    let replies = [
        ProcessReply::Prepared,
        seen,
        ProcessReply::Observed(Some(reused)),
    ];
    assert!(matches!(
        INSPECTOR.terminate_verified_as(UID, &metadata, &replies),
        InspectionFlow::Fails(ProcessIdentityError::Security(_))
    ));
}

#[test]
fn terminations_fail_when_the_process_is_gone() {
    let metadata = sample_metadata();
    let seen = ProcessReply::Observed(Some(matching_snapshot(&metadata)));
    let gone = ProcessReply::Observed(None);
    assert_eq!(
        INSPECTOR.terminate_verified_as(UID, &metadata, &[ProcessReply::Prepared, gone]),
        InspectionFlow::Fails(ProcessIdentityError::Security(
            "process exited before termination verification"
        ))
    );
    assert_eq!(
        INSPECTOR.terminate_verified_as(UID, &metadata, &[ProcessReply::Prepared, seen, gone]),
        InspectionFlow::Fails(ProcessIdentityError::Security(
            "process exited during termination verification"
        ))
    );
    let invalid = PidMetadata { pid: 0, ..metadata };
    assert_eq!(
        INSPECTOR.inspect_as(UID, &invalid, &[]),
        InspectionFlow::Fails(ProcessIdentityError::Security(
            "metadata contains an invalid process identifier"
        ))
    );
}

#[test]
fn the_current_user_is_compared_with_the_observed_owner() {
    let metadata = sample_metadata();
    let mut snapshot = matching_snapshot(&metadata);
    let mut verified = 0;
    // Whoever runs this, at most one of two different owners can be the user.
    for uid in [snapshot.uid, snapshot.uid + 1] {
        snapshot.uid = uid;
        let replies = [ProcessReply::Observed(Some(snapshot))];
        if let InspectionFlow::Gives(status) = INSPECTOR.inspect(&metadata, &replies) {
            assert_eq!(status, ProcessStatus::Verified(snapshot));
            verified += 1;
        }
    }
    assert!(verified <= 1);
    assert_eq!(
        INSPECTOR.terminate_verified(&metadata, &[]),
        InspectionFlow::Asks(ProcessAction::Prepare(4242))
    );
    snapshot.uid = rustix::process::getuid().as_raw();
    let replies = [ProcessReply::Observed(Some(snapshot))];
    assert_eq!(
        INSPECTOR.inspect(&metadata, &replies),
        InspectionFlow::Gives(ProcessStatus::Verified(snapshot))
    );
}

#[test]
fn linux_parsers_require_exact_worker_role_and_valid_start_field() {
    assert!(is_worker_cmdline(b"/tmp/mcp-cli\0__daemon\0"));
    assert!(!is_worker_cmdline(b"/tmp/mcp-cli\0list\0"));
    assert!(!is_worker_cmdline(b"/tmp/mcp-cli\0__daemon\0unexpected\0"));

    let stat = b"42 (worker with ) name) S 1 2 3 4 5 6 7 8 9 10 11 12 13 14 15 16 17 18 98765 20";
    assert_eq!(parse_linux_stat(stat).unwrap(), (b'S', 98765));
    assert!(parse_linux_stat(b"42 malformed").is_err());
    assert_eq!(
        parse_linux_status_uid(b"Name:\tworker\nUid:\t123\t123\t123\t123\n").unwrap(),
        123
    );
}

#[test]
fn malformed_process_texts_are_refused_by_reason() {
    let security = |reason| Err(ProcessIdentityError::Security(reason));
    assert_eq!(
        parse_linux_stat(b"no parentheses"),
        security("proc stat has malformed process name")
    );
    assert_eq!(
        parse_linux_stat(b"1 (x) S 1 2"),
        security("proc stat does not contain a process start time")
    );
    assert_eq!(
        parse_linux_stat(b"1 (x) S 1 2 3 4 5 6 7 8 9 10 11 12 13 14 15 16 17 18 x 20"),
        security("proc stat process start time is invalid")
    );
    assert_eq!(
        parse_linux_status_uid(b"Uid:\t\xff"),
        Err(ProcessIdentityError::Security("proc status is not valid UTF-8"))
    );
    assert_eq!(
        parse_linux_status_uid(b"Name:\tx\n"),
        Err(ProcessIdentityError::Security("proc status does not contain a UID"))
    );
    assert_eq!(
        parse_linux_status_uid(b"Uid:\tx\n"),
        Err(ProcessIdentityError::Security("proc status UID is invalid"))
    );
    assert_eq!(
        parse_linux_status_uid(b"Uid:\t4294967296\n"),
        Err(ProcessIdentityError::Security("proc status UID is invalid"))
    );
    assert_eq!(parse_linux_status_uid(b"Uid:\t4294967295\n"), Ok(u32::MAX));
}

#[test]
fn start_times_are_counted_from_boot() {
    let stat = b"cpu 1 2 3\nbtime 1700000000\nprocesses 9\n";
    assert_eq!(
        linux_start_time(12_345, stat, 100),
        Ok(SystemTime {
            seconds: 1_700_000_123,
            nanoseconds: 450_000_000,
        })
    );
    assert_eq!(
        linux_start_time(1, stat, 0),
        Err(ProcessIdentityError::Security("system clock tick rate is invalid"))
    );
    assert_eq!(
        linux_start_time(1, b"cpu 1\n", 100),
        Err(ProcessIdentityError::Security(
            "system boot time could not be verified"
        ))
    );
    assert_eq!(
        linux_start_time(1, b"btime 18446744073709551615\n", 100),
        Err(ProcessIdentityError::Security(
            "process start time is outside the supported range"
        ))
    );
}

struct LinuxFiles {
    stat: &'static [u8],
    status: &'static [u8],
    arguments: &'static [u8],
    executable: &'static [u8],
}

const WORKER_FILES: LinuxFiles = LinuxFiles {
    stat: b"4242 (mcp-cli) S 1 2 3 4 5 6 7 8 9 10 11 12 13 14 15 16 17 18 200 20",
    status: b"Name:\tmcp-cli\nUid:\t1000\t1000\t1000\t1000\n",
    arguments: b"/usr/bin/mcp-cli\0__daemon\0",
    executable: b"/usr/bin/mcp-cli",
};

impl LinuxFiles {
    fn answer(&self, action: FileAction, opened: &mut Place) -> FileReply {
        let inode = |place: Place| match place {
            Place::ProcessDir => 1,
            Place::ProcessStat => 2,
            Place::ProcessStatus => 3,
            Place::ProcessArguments => 4,
            _ => 5,
        };
        match action {
            FileAction::Inspect(Place::ProcessDir) => {
                FileReply::Facts(own_facts(1, FileKind::Directory))
            }
            FileAction::Inspect(Place::ProcessExecutable) => {
                FileReply::Facts(own_facts(5, FileKind::Symlink))
            }
            FileAction::Inspect(place) | FileAction::InspectOpened(place) => {
                FileReply::Facts(own_facts(inode(place), FileKind::Regular))
            }
            FileAction::Open(place) => {
                *opened = place;
                FileReply::Done
            }
            FileAction::ReadOpened(_) => FileReply::Bytes(
                match opened {
                    Place::ProcessStat => self.stat,
                    Place::ProcessStatus => self.status,
                    _ => self.arguments,
                }
                .to_vec(),
            ),
            FileAction::ReadLink(_) => FileReply::Path(self.executable.to_vec()),
            FileAction::Follow(_) => FileReply::Facts(own_facts(77, FileKind::Regular)),
            FileAction::ReadText(_) => FileReply::Bytes(b"btime 1700000000\n".to_vec()),
            other => panic!("{other:?}"),
        }
    }

    fn observe(&self) -> ProcessFlow<Option<ProcessSnapshot>> {
        let mut replies = Vec::new();
        let mut opened = Place::ProcessDir;
        loop {
            match observe_linux_process(4242, UID, 100, &replies) {
                ProcessFlow::Asks(action) => replies.push(self.answer(action, &mut opened)),
                done => return done,
            }
        }
    }
}

#[test]
fn linux_processes_are_observed_through_unchanged_files() {
    assert_eq!(
        WORKER_FILES.observe(),
        ProcessFlow::Gives(Some(ProcessSnapshot {
            pid: 4242,
            uid: 1000,
            started_at: SystemTime {
                seconds: 1_700_000_002,
                nanoseconds: 0,
            },
            executable_device: 3,
            executable_inode: 77,
            worker: true,
        }))
    );
    let zombie = LinuxFiles {
        stat: b"4242 (x) Z 1 2 3 4 5 6 7 8 9 10 11 12 13 14 15 16 17 18 200 20",
        ..WORKER_FILES
    };
    assert_eq!(zombie.observe(), ProcessFlow::Gives(None));
    let relative = LinuxFiles {
        executable: b"bin/mcp-cli",
        ..WORKER_FILES
    };
    assert_eq!(
        relative.observe(),
        ProcessFlow::Fails(ProcessIdentityError::Security(
            "executable path is not absolute and normalized"
        ))
    );
    assert_eq!(
        observe_linux_process(4242, UID, 100, &[FileReply::Missing]),
        ProcessFlow::Gives(None)
    );
    let foreign = FileFacts {
        uid: UID + 1,
        ..own_facts(1, FileKind::Directory)
    };
    assert_eq!(
        observe_linux_process(4242, UID, 100, &[FileReply::Facts(foreign)]),
        ProcessFlow::Fails(ProcessIdentityError::Security(
            "proc process directory owner or type is unsafe"
        ))
    );
    assert_eq!(
        linux_process_snapshot(4242, &[]),
        ProcessFlow::Asks(FileAction::Inspect(Place::ProcessDir))
    );
    assert_eq!(
        linux_process_snapshot(4242, &[FileReply::Missing]),
        ProcessFlow::Gives(None)
    );
}

#[test]
fn swapped_process_files_are_refused() {
    let place = Place::ProcessStat;
    let before = FileReply::Facts(own_facts(2, FileKind::Regular));
    let other = FileReply::Facts(own_facts(3, FileKind::Regular));
    assert_eq!(
        read_validated_proc_file(place, UID, &[before.clone(), FileReply::Done, other.clone()], 0),
        ProcessFlow::Fails(ProcessIdentityError::Security(
            "proc identity file changed while opening"
        ))
    );
    let replies = [
        before.clone(),
        FileReply::Done,
        before.clone(),
        FileReply::Bytes(b"x".to_vec()),
        before.clone(),
    ];
    assert_eq!(
        read_validated_proc_file(place, UID, &replies, 0),
        ProcessFlow::Gives(())
    );
    let mut swapped = replies.to_vec();
    swapped[4] = other;
    assert!(matches!(
        read_validated_proc_file(place, UID, &swapped, 0),
        ProcessFlow::Fails(ProcessIdentityError::Security(_))
    ));
    assert_eq!(
        read_validated_proc_file(place, UID + 1, &replies, 0),
        ProcessFlow::Fails(ProcessIdentityError::Security(
            "proc identity file owner or type is unsafe"
        ))
    );
}

fn argument_area(arguments: &[&str]) -> Vec<u8> {
    let mut area = (arguments.len() as u32).to_le_bytes().to_vec();
    area.extend_from_slice(b"/usr/bin/mcp-cli\0\0\0\0");
    for argument in arguments {
        area.extend_from_slice(argument.as_bytes());
        area.push(0);
    }
    area
}

#[test]
fn argument_areas_hold_exactly_the_worker_role() {
    assert_eq!(
        parse_procargs(&argument_area(&["mcp-cli", "__daemon"])),
        Ok(b"mcp-cli\0__daemon\0".to_vec())
    );
    assert_eq!(
        parse_procargs(&argument_area(&["mcp-cli", "__daemon", "x"])),
        Ok(Vec::new())
    );
    assert_eq!(
        parse_procargs(&[2, 0, 0]),
        Err(ProcessIdentityError::Security(
            "platform process arguments are truncated"
        ))
    );
    assert_eq!(
        parse_procargs(b"\x02\0\0\0/usr/bin/x\0\0mcp-cli"),
        Err(ProcessIdentityError::Security(
            "platform process arguments are malformed"
        ))
    );
    assert!(argument_limit_is_safe(0, 1_048_576));
    assert!(!argument_limit_is_safe(-1, 1_048_576));
    assert!(!argument_limit_is_safe(0, 0));
    assert!(argument_limit_is_safe(0, 16_777_216));
    assert!(!argument_limit_is_safe(0, 16_777_217));
    assert_eq!(strip_terminator(b"/usr/bin/x\0"), b"/usr/bin/x");
    assert_eq!(strip_terminator(b"/usr/bin/x"), b"/usr/bin/x");
}

fn bsd_info(record: &[u8]) -> BsdReply {
    BsdReply::Info(BsdInfo {
        record: record.to_vec(),
        uid: UID,
        start_seconds: 1_700_000_000,
        start_microseconds: 250_000,
    })
}

fn bsd_replies(second: &[u8]) -> Vec<BsdReply> {
    vec![
        bsd_info(b"record"),
        BsdReply::Path(b"/usr/bin/mcp-cli\0".to_vec()),
        BsdReply::Facts(own_facts(77, FileKind::Regular)),
        BsdReply::Arguments(argument_area(&["mcp-cli", "__daemon"])),
        bsd_info(second),
    ]
}

#[test]
fn macos_processes_are_observed_twice() {
    let replies = bsd_replies(b"record");
    for (count, action) in [
        (0, BsdAction::Info),
        (1, BsdAction::ExecutablePath),
        (2, BsdAction::FollowExecutable),
        (3, BsdAction::Arguments),
        (4, BsdAction::Info),
    ] {
        assert_eq!(
            macos_process_snapshot(4242, &replies[..count]),
            BsdFlow::Asks(action)
        );
    }
    assert_eq!(
        macos_process_snapshot(4242, &replies),
        BsdFlow::Gives(Some(ProcessSnapshot {
            pid: 4242,
            uid: UID,
            started_at: SystemTime {
                seconds: 1_700_000_000,
                nanoseconds: 250_000_000,
            },
            executable_device: 3,
            executable_inode: 77,
            worker: true,
        }))
    );
    assert_eq!(
        macos_process_snapshot(4242, &bsd_replies(b"changed")),
        BsdFlow::Fails(ProcessIdentityError::Security(
            "process changed during identity query"
        ))
    );
    assert_eq!(
        macos_process_snapshot(4242, &[BsdReply::Gone]),
        BsdFlow::Gives(None)
    );
    let mut exited = bsd_replies(b"record");
    exited[4] = BsdReply::Gone;
    assert_eq!(
        macos_process_snapshot(4242, &exited),
        BsdFlow::Fails(ProcessIdentityError::Security(
            "process exited during identity query"
        ))
    );
}

#[test]
fn record_sizes_decide_what_a_query_means() {
    assert_eq!(bsd_query_outcome(136, 136, None), None);
    assert_eq!(bsd_query_outcome(0, 136, Some(3)), Some(BsdReply::Gone));
    assert_eq!(bsd_query_outcome(0, 136, Some(1)), Some(BsdReply::Failed));
    assert_eq!(bsd_query_outcome(100, 136, None), Some(BsdReply::Ambiguous));
}

#[test]
fn inspectors_need_an_absolute_regular_program() {
    let facts = own_facts(22, FileKind::Regular);
    assert_eq!(
        ProcessInspector::new(Some(b"/usr/bin/mcp-cli"), Some(facts)),
        Ok(ProcessInspector {
            executable_device: 3,
            executable_inode: 22,
        })
    );
    assert_eq!(
        ProcessInspector::new(None, Some(facts)),
        Err(ProcessIdentityError::Query)
    );
    assert_eq!(
        ProcessInspector::new(Some(b"/usr/bin/mcp-cli"), None),
        Err(ProcessIdentityError::Query)
    );
    assert_eq!(
        ProcessInspector::new(Some(b"mcp-cli"), Some(facts)),
        Err(ProcessIdentityError::Security(
            "executable path is not absolute and normalized"
        ))
    );
    assert_eq!(
        ProcessInspector::new(
            Some(b"/usr/bin"),
            Some(own_facts(22, FileKind::Directory))
        ),
        Err(ProcessIdentityError::Security(
            "current executable is not a regular file"
        ))
    );
    assert!(validate_absolute_normalized_path(b"/usr/bin/x").is_ok());
    assert!(validate_absolute_normalized_path(b"/usr/../x").is_err());
}

#[test]
fn workers_record_only_themselves() {
    let metadata = sample_metadata();
    let snapshot = matching_snapshot(&metadata);
    assert_eq!(
        PidMetadata::for_worker(metadata.config_hash, 4242, UID, Some(snapshot)),
        Ok(metadata)
    );
    assert_eq!(
        PidMetadata::for_worker(metadata.config_hash, 4242, UID, None),
        Err(ProcessIdentityError::Security(
            "current worker process could not be queried"
        ))
    );
    let mut other = snapshot;
    other.worker = false;
    assert_eq!(
        PidMetadata::for_worker(metadata.config_hash, 4242, UID, Some(other)),
        Err(ProcessIdentityError::Security(
            "current process is not the expected daemon worker"
        ))
    );
    let mut own = snapshot;
    own.uid = rustix::process::getuid().as_raw();
    assert_eq!(
        PidMetadata::for_current_worker(metadata.config_hash, 4242, Some(own)),
        Ok(metadata)
    );
}

#[test]
fn identity_errors_have_stable_texts() {
    assert_eq!(
        ProcessIdentityError::Query.display_text(),
        "daemon process query failed"
    );
    assert_eq!(
        ProcessIdentityError::Security("x").display_text(),
        "daemon process identity could not be verified: x"
    );
    assert!(matches!(
        unsupported_snapshot(),
        ProcessIdentityError::Security(_)
    ));
    assert!(matches!(
        unsupported_termination(),
        ProcessIdentityError::Security(_)
    ));
}
