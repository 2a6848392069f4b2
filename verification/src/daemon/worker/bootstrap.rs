//! What a parent hands to the worker that it starts.

use vstd::prelude::*;

use crate::assoc;
use crate::bytes;
use crate::bytes::parse_unsigned;
use crate::config;
use crate::config::{
    register_transport_secrets, ConfigHash, ServerDefinition, ServerId, ToolFilterConfig,
    TransportConfig,
};
use crate::daemon::paths::DaemonPaths;
use crate::daemon::IpcOperation;
use crate::domain;
use crate::domain::Url;
use crate::policy::redact::SecretSet;
use crate::text;
use crate::text::{chars_of, str_equal, text_order};
use crate::time::Duration;
use crate::unix_path;
use crate::unix_path::parent_of;

verus! {

pub const WORKER_BOOTSTRAP_VERSION: u8 = 1;

pub const WORKER_BOOTSTRAP_MAX_BYTES: usize = 16_777_216;

/// The longest time that a worker may take to start, in milliseconds.
pub const WORKER_STARTUP_CAP_MILLIS: u64 = 5_000;

/// The sole byte sent over the inherited anonymous ready pipe.
pub const WORKER_READY_BYTE: u8 = 1;

/// The longest time that a worker may take to start.
pub fn worker_startup_cap() -> (r: Duration)
    ensures
        r@ == WORKER_STARTUP_CAP_MILLIS * 1_000_000,
{
    Duration::from_millis(WORKER_STARTUP_CAP_MILLIS)
}

/// Stable, payload-free failures from worker bootstrap. The text deliberately
/// excludes paths, configuration values, environment entries, and adapter
/// errors so a failed hidden invocation cannot disclose bootstrap data.
#[derive(Clone, Copy, Debug, PartialEq, Eq, Structural)]
pub enum WorkerBootstrapError {
    InvalidInput,
    UnsafeRuntime,
    LockHeld,
    BackendInitialization,
    SocketPublication,
    MetadataPublication,
    ReadyPublication,
    SignalBeforeReady,
    Service,
}

/// What is said of a failed bootstrap.
pub open spec fn failure_text(failure: WorkerBootstrapError) -> Seq<char> {
    match failure {
        WorkerBootstrapError::InvalidInput => "invalid daemon worker bootstrap"@,
        WorkerBootstrapError::UnsafeRuntime => "unsafe daemon worker runtime"@,
        WorkerBootstrapError::LockHeld => "daemon worker already starting or running"@,
        WorkerBootstrapError::BackendInitialization => "daemon MCP initialization failed"@,
        WorkerBootstrapError::SocketPublication => "daemon socket publication failed"@,
        WorkerBootstrapError::MetadataPublication => "daemon metadata publication failed"@,
        WorkerBootstrapError::ReadyPublication => "daemon ready publication failed"@,
        WorkerBootstrapError::SignalBeforeReady => "daemon startup interrupted"@,
        WorkerBootstrapError::Service => "daemon worker service failed"@,
    }
}

impl WorkerBootstrapError {
    pub fn display_text(self) -> (r: &'static str)
        ensures
            r@ == failure_text(self),
    {
        match self {
            WorkerBootstrapError::InvalidInput => "invalid daemon worker bootstrap",
            WorkerBootstrapError::UnsafeRuntime => "unsafe daemon worker runtime",
            WorkerBootstrapError::LockHeld => "daemon worker already starting or running",
            WorkerBootstrapError::BackendInitialization => "daemon MCP initialization failed",
            WorkerBootstrapError::SocketPublication => "daemon socket publication failed",
            WorkerBootstrapError::MetadataPublication => "daemon metadata publication failed",
            WorkerBootstrapError::ReadyPublication => "daemon ready publication failed",
            WorkerBootstrapError::SignalBeforeReady => "daemon startup interrupted",
            WorkerBootstrapError::Service => "daemon worker service failed",
        }
    }
}

/// Stable parent-side daemon startup failures. Causes are intentionally not
/// retained because process and serialization errors can include sensitive
/// bootstrap fragments on some platforms.
#[derive(Clone, Copy, Debug, PartialEq, Eq, Structural)]
pub enum DaemonSpawnError {
    InvalidEnvironment,
    InvalidPaths,
    SerializeBootstrap,
    SpawnWorker,
    TransferBootstrap,
    ReadyTimeout,
    WorkerExitedBeforeReady,
    InvalidReady,
    Cancelled,
}

impl DaemonSpawnError {
    pub fn display_text(self) -> (r: &'static str)
        ensures
            r@ == (match self {
                DaemonSpawnError::InvalidEnvironment => "daemon environment snapshot is invalid"@,
                DaemonSpawnError::InvalidPaths => "daemon runtime paths are invalid"@,
                DaemonSpawnError::SerializeBootstrap => "daemon bootstrap serialization failed"@,
                DaemonSpawnError::SpawnWorker => "daemon worker process could not be started"@,
                DaemonSpawnError::TransferBootstrap => "daemon bootstrap transfer failed"@,
                DaemonSpawnError::ReadyTimeout => "daemon worker did not become ready in time"@,
                DaemonSpawnError::WorkerExitedBeforeReady => "daemon worker exited before ready"@,
                DaemonSpawnError::InvalidReady => "daemon worker returned an invalid ready token"@,
                DaemonSpawnError::Cancelled => "daemon startup was cancelled"@,
            }),
    {
        match self {
            DaemonSpawnError::InvalidEnvironment => "daemon environment snapshot is invalid",
            DaemonSpawnError::InvalidPaths => "daemon runtime paths are invalid",
            DaemonSpawnError::SerializeBootstrap => "daemon bootstrap serialization failed",
            DaemonSpawnError::SpawnWorker => "daemon worker process could not be started",
            DaemonSpawnError::TransferBootstrap => "daemon bootstrap transfer failed",
            DaemonSpawnError::ReadyTimeout => "daemon worker did not become ready in time",
            DaemonSpawnError::WorkerExitedBeforeReady => "daemon worker exited before ready",
            DaemonSpawnError::InvalidReady => "daemon worker returned an invalid ready token",
            DaemonSpawnError::Cancelled => "daemon startup was cancelled",
        }
    }
}

/// Startup checkpoints at which a worker can be made to fail, in order to prove
/// that every partially created artifact is reclaimed.
#[derive(Clone, Copy, Debug, PartialEq, Eq, Structural)]
pub enum WorkerStartupFault {
    BeforeBackend,
    BeforeSocket,
    BeforePid,
    BeforeReady,
}

/// Tool visibility patterns in a bootstrap.
#[derive(Clone, Debug, PartialEq, Eq)]
pub struct WorkerFilter {
    pub allowed_tools: Vec<String>,
    pub disabled_tools: Vec<String>,
}

/// A transport in a bootstrap.
#[derive(Clone, Debug, PartialEq, Eq)]
pub enum WorkerTransport {
    Stdio {
        command: String,
        args: Vec<String>,
        env: Vec<(String, String)>,
        cwd: Option<Vec<u8>>,
    },
    Http { url: String, headers: Vec<(String, String)> },
}

/// A server in a bootstrap.
#[derive(Clone, Debug, PartialEq, Eq)]
pub struct WorkerServer {
    pub name: String,
    pub id: String,
    pub config_hash: String,
    pub transport: WorkerTransport,
    pub filter: WorkerFilter,
}

/// Everything that a worker is told.
#[derive(Clone, Debug, PartialEq, Eq)]
pub struct WorkerBootstrapEnvelope {
    pub version: u8,
    pub runtime_parent: Vec<u8>,
    pub server: WorkerServer,
    pub parent_environment: Vec<(String, String)>,
    pub idle_timeout_millis: u64,
    pub startup_timeout_millis: u64,
    pub startup_fault: Option<WorkerStartupFault>,
}

/// A bootstrap that a worker can act on, up to its runtime paths.
#[derive(Clone, Debug, PartialEq, Eq)]
pub struct ValidatedWorkerBootstrap {
    pub server: ServerDefinition,
    pub runtime_parent: Vec<u8>,
    pub parent_environment: Vec<(String, String)>,
    pub idle_timeout: Duration,
    pub startup_timeout: Duration,
    pub startup_fault: Option<WorkerStartupFault>,
}

/// A transport as text, which is how it is handed over.
#[verifier::ext_equal]
pub enum TransportText {
    Stdio {
        command: Seq<char>,
        args: Seq<Seq<char>>,
        env: Seq<(Seq<char>, Seq<char>)>,
        cwd: Option<Seq<u8>>,
    },
    Http { url: Seq<char>, headers: Seq<(Seq<char>, Seq<char>)> },
}

/// A server as text.
#[verifier::ext_equal]
pub struct ServerText {
    pub name: Seq<char>,
    pub id: Seq<char>,
    pub config_hash: Seq<char>,
    pub transport: TransportText,
    pub allowed_tools: Seq<Seq<char>>,
    pub disabled_tools: Seq<Seq<char>>,
}

pub open spec fn optional_bytes(path: Option<Vec<u8>>) -> Option<Seq<u8>> {
    match path {
        Some(bytes) => Some(bytes@),
        None => None,
    }
}

impl View for WorkerTransport {
    type V = TransportText;

    open spec fn view(&self) -> TransportText {
        match *self {
            WorkerTransport::Stdio { command, args, env, cwd } => TransportText::Stdio {
                command: command@,
                args: text::texts(args@),
                env: config::entry_texts(env@),
                cwd: optional_bytes(cwd),
            },
            WorkerTransport::Http { url, headers } => TransportText::Http {
                url: url@,
                headers: config::entry_texts(headers@),
            },
        }
    }
}

impl View for WorkerServer {
    type V = ServerText;

    open spec fn view(&self) -> ServerText {
        ServerText {
            name: self.name@,
            id: self.id@,
            config_hash: self.config_hash@,
            transport: self.transport@,
            allowed_tools: text::texts(self.filter.allowed_tools@),
            disabled_tools: text::texts(self.filter.disabled_tools@),
        }
    }
}

/// A configured transport as text.
pub open spec fn transport_text(transport: TransportConfig) -> TransportText {
    match transport {
        TransportConfig::Stdio { command, args, env, cwd } => TransportText::Stdio {
            command: command@,
            args: text::texts(args@),
            env: config::entry_texts(env@),
            cwd: optional_bytes(cwd),
        },
        TransportConfig::Http { url, headers } => TransportText::Http {
            url: url@.text,
            headers: config::entry_texts(headers@),
        },
    }
}

/// A configured server as text.
pub open spec fn server_text(server: ServerDefinition) -> ServerText {
    ServerText {
        name: server.name@,
        id: server.id.0@,
        config_hash: config::hex_of(server.config_hash.0@),
        transport: transport_text(server.transport),
        allowed_tools: text::texts(server.filter.allowed_tools@),
        disabled_tools: text::texts(server.filter.disabled_tools@),
    }
}

fn copy_texts(list: &Vec<String>) -> (r: Vec<String>)
    ensures
        text::texts(r@) == text::texts(list@),
{
    let mut copy: Vec<String> = Vec::new();
    let mut index: usize = 0;
    let ghost all = text::texts(list@);
    assert(text::texts(copy@) =~= all.take(0));
    while index < list.len()
        invariant
            index <= list.len(),
            all == text::texts(list@),
            text::texts(copy@) == all.take(index as int),
        decreases list.len() - index,
    {
        let entry = list[index].as_str().to_owned();
        let ghost before = text::texts(copy@);
        let ghost content = entry@;
        copy.push(entry);
        assert(text::texts(copy@) =~= before.push(content));
        assert(all.take(index + 1) =~= all.take(index as int).push(all[index as int]));
        index += 1;
    }
    assert(all.take(index as int) =~= all);
    copy
}

/// A copy of a list of names and values.
pub fn copy_entries(list: &Vec<(String, String)>) -> (r: Vec<(String, String)>)
    ensures
        config::entry_texts(r@) == config::entry_texts(list@),
{
    let mut copy: Vec<(String, String)> = Vec::new();
    let mut index: usize = 0;
    let ghost all = config::entry_texts(list@);
    assert(config::entry_texts(copy@) =~= all.take(0));
    while index < list.len()
        invariant
            index <= list.len(),
            all == config::entry_texts(list@),
            config::entry_texts(copy@) == all.take(index as int),
        decreases list.len() - index,
    {
        let entry = (list[index].0.as_str().to_owned(), list[index].1.as_str().to_owned());
        let ghost before = config::entry_texts(copy@);
        let ghost content = (entry.0@, entry.1@);
        copy.push(entry);
        assert(config::entry_texts(copy@) =~= before.push(content));
        assert(all.take(index + 1) =~= all.take(index as int).push(all[index as int]));
        index += 1;
    }
    assert(all.take(index as int) =~= all);
    copy
}

/// The names and values of an environment, if all of them are text.
pub open spec fn environment_texts(
    entries: Seq<(Option<String>, Option<String>)>,
) -> Seq<(Seq<char>, Seq<char>)> {
    entries.map_values(|entry: (Option<String>, Option<String>)| (entry.0->0@, entry.1->0@))
}

/// Every name and value of an environment is text.
pub open spec fn is_textual(entries: Seq<(Option<String>, Option<String>)>) -> bool {
    forall|i: int|
        #![trigger entries[i]]
        0 <= i < entries.len() ==> entries[i].0 is Some && entries[i].1 is Some
}

/// The names of a list stand in strictly ascending order.
pub open spec fn ordered(pairs: Seq<(Seq<char>, Seq<char>)>) -> bool {
    forall|i: int, j: int|
        #![trigger pairs[i], pairs[j]]
        0 <= i < j < pairs.len() ==> text::text_before(pairs[i].0, pairs[j].0)
}

/// A list holds exactly the entries of a map.
pub open spec fn lists(
    pairs: Seq<(Seq<char>, Seq<char>)>,
    map: Map<Seq<char>, Seq<char>>,
) -> bool {
    &&& forall|i: int|
        #![trigger pairs[i]]
        0 <= i < pairs.len() ==> map.dom().contains(pairs[i].0) && map[pairs[i].0] == pairs[i].1
    &&& forall|name: Seq<char>| #[trigger]
        map.dom().contains(name) ==> exists|i: int|
            0 <= i < pairs.len() && (#[trigger] pairs[i]).0 == name
}

pub proof fn lemma_ordered_is_distinct(pairs: Seq<(Seq<char>, Seq<char>)>)
    requires
        ordered(pairs),
    ensures
        assoc::distinct(pairs),
{
    assert forall|i: int, j: int|
        #![trigger pairs[i], pairs[j]]
        0 <= i < j < pairs.len() implies pairs[i].0 != pairs[j].0 by {
        text::lemma_bytes_before_asymmetric(
            vstd::utf8::encode_utf8(pairs[i].0),
            vstd::utf8::encode_utf8(pairs[j].0),
        );
    }
}

proof fn lemma_listed_map(
    pairs: Seq<(Seq<char>, Seq<char>)>,
    map: Map<Seq<char>, Seq<char>>,
)
    requires
        ordered(pairs),
        lists(pairs, map),
    ensures
        assoc::as_map(pairs) == map,
{
    lemma_ordered_is_distinct(pairs);
    assoc::lemma_lookup(pairs);
    let own = assoc::as_map(pairs);
    assert forall|name: Seq<char>| #[trigger] own.dom().contains(name) implies map.dom().contains(
        name,
    ) && own[name] == map[name] by {
        let i = choose|i: int| 0 <= i < pairs.len() && (#[trigger] pairs[i]).0 == name;
        assert(pairs[i].0 == name);
    }
    assert forall|name: Seq<char>| #[trigger] map.dom().contains(name) implies own.dom().contains(
        name,
    ) by {
        let i = choose|i: int| 0 <= i < pairs.len() && (#[trigger] pairs[i]).0 == name;
        assert(own.dom().contains(pairs[i].0));
    }
    assert(own =~= map);
}

/// Where a name stands, or would stand, in an ordered list.
fn entry_position(list: &Vec<(String, String)>, name: &String) -> (r: usize)
    requires
        ordered(config::entry_texts(list@)),
    ensures
        r <= list@.len(),
        forall|i: int|
            #![trigger list@[i]]
            0 <= i < r ==> text::text_before(list@[i].0@, name@),
        r < list@.len() ==> !text::text_before(list@[r as int].0@, name@),
{
    let mut at: usize = 0;
    while at < list.len()
        invariant
            at <= list@.len(),
            forall|i: int|
                #![trigger list@[i]]
                0 <= i < at ==> text::text_before(list@[i].0@, name@),
        decreases list.len() - at,
    {
        if !text_order(list[at].0.as_str(), name.as_str()) {
            return at;
        }
        at += 1;
    }
    at
}

/// Puts an entry into an ordered list; it replaces one of the same name.
fn put_entry(list: &mut Vec<(String, String)>, name: String, value: String)
    requires
        ordered(config::entry_texts(old(list)@)),
    ensures
        ordered(config::entry_texts(final(list)@)),
        assoc::as_map(config::entry_texts(final(list)@)) == assoc::as_map(
            config::entry_texts(old(list)@),
        ).insert(name@, value@),
{
    let ghost before = config::entry_texts(list@);
    let ghost map = assoc::as_map(before);
    let ghost added = (name@, value@);
    proof {
        lemma_ordered_is_distinct(before);
        assoc::lemma_lookup(before);
    }
    let at = entry_position(list, &name);
    proof {
        assert forall|i: int| 0 <= i < at implies text::text_before(
            (#[trigger] before[i]).0,
            added.0,
        ) by {
            assert(before[i].0 == list@[i].0@);
        }
        assert(at < before.len() ==> before[at as int].0 == list@[at as int].0@);
        text::lemma_text_before_total(
            added.0,
            if at < before.len() {
                before[at as int].0
            } else {
                added.0
            },
        );
    }
    let known = at < list.len() && str_equal(list[at].0.as_str(), name.as_str());
    if known {
        list.set(at, (name, value));
        let ghost after = config::entry_texts(list@);
        proof {
            assert(after =~= before.update(at as int, added));
            assert(ordered(after)) by {
                assert forall|i: int, j: int|
                    #![trigger after[i], after[j]]
                    0 <= i < j < after.len() implies text::text_before(after[i].0, after[j].0) by {
                    assert(after[i].0 == before[i].0 && after[j].0 == before[j].0);
                }
            }
            let grown = map.insert(added.0, added.1);
            lemma_ordered_is_distinct(before);
            assert forall|i: int|
                #![trigger after[i]]
                0 <= i < after.len() implies grown.dom().contains(after[i].0)
                && grown[after[i].0] == after[i].1 by {
                if i != at {
                    assert(after[i] == before[i]);
                    assert(before[i].0 != before[at as int].0);
                }
            }
            assert forall|name: Seq<char>| #[trigger]
                grown.dom().contains(name) implies exists|i: int|
                0 <= i < after.len() && (#[trigger] after[i]).0 == name by {
                if name == added.0 {
                    assert(after[at as int].0 == name);
                } else {
                    let i = choose|i: int| 0 <= i < before.len() && (#[trigger] before[i]).0 == name;
                    assert(after[i].0 == name);
                }
            }
            lemma_listed_map(after, grown);
        }
    } else {
        list.insert(at, (name, value));
        let ghost after = config::entry_texts(list@);
        proof {
            assert(after =~= before.insert(at as int, added));
            assert forall|i: int, j: int|
                #![trigger after[i], after[j]]
                0 <= i < j < after.len() implies text::text_before(after[i].0, after[j].0) by {
                let i2 = if i < at { i } else { i - 1 };
                let j2 = if j < at { j } else { j - 1 };
                if i != at {
                    assert(after[i] == before[i2]);
                }
                if j != at {
                    assert(after[j] == before[j2]);
                }
                if i == at && j2 > at {
                    assert(text::text_before(before[at as int].0, before[j2].0));
                    text::lemma_text_before_transitive(
                        added.0,
                        before[at as int].0,
                        before[j2].0,
                    );
                }
            }
            let grown = map.insert(added.0, added.1);
            assert forall|i: int|
                #![trigger after[i]]
                0 <= i < after.len() implies grown.dom().contains(after[i].0)
                && grown[after[i].0] == after[i].1 by {
                let i2 = if i < at { i } else { i - 1 };
                if i != at {
                    assert(after[i] == before[i2]);
                    if i < at {
                        assert(text::text_before(after[i].0, after[at as int].0));
                    } else {
                        assert(text::text_before(after[at as int].0, after[i].0));
                    }
                    lemma_ordered_is_distinct(after);
                    assert(after[i].0 != after[at as int].0);
                }
            }
            assert forall|name: Seq<char>| #[trigger]
                grown.dom().contains(name) implies exists|i: int|
                0 <= i < after.len() && (#[trigger] after[i]).0 == name by {
                if name == added.0 {
                    assert(after[at as int].0 == name);
                } else {
                    let i = choose|i: int| 0 <= i < before.len() && (#[trigger] before[i]).0 == name;
                    let i2 = if i < at { i } else { i + 1 };
                    assert(after[i2].0 == name);
                }
            }
            lemma_listed_map(after, grown);
        }
    }
}

/// The environment that a worker is given: every name and value has to be text;
/// a later entry replaces an earlier one of the same name.
pub fn worker_parent_environment(entries: Vec<(Option<String>, Option<String>)>) -> (r: Result<
    Vec<(String, String)>,
    DaemonSpawnError,
>)
    ensures
        match r {
            Ok(list) => {
                &&& is_textual(entries@)
                &&& ordered(config::entry_texts(list@))
                &&& assoc::as_map(config::entry_texts(list@)) == assoc::as_map(
                    environment_texts(entries@),
                )
            },
            Err(failure) => !is_textual(entries@) && failure
                == DaemonSpawnError::InvalidEnvironment,
        },
{
    let mut list: Vec<(String, String)> = Vec::new();
    let ghost all = environment_texts(entries@);
    assert(config::entry_texts(list@) =~= Seq::empty());
    assert(all.take(0) =~= Seq::empty());
    for entry in it: entries
        invariant
            it.seq() == entries@,
            all == environment_texts(entries@),
            is_textual(entries@.take(it.index() as int)),
            ordered(config::entry_texts(list@)),
            assoc::as_map(config::entry_texts(list@)) == assoc::as_map(
                all.take(it.index() as int),
            ),
    {
        let ghost at = it.index() as int;
        assert(entry == entries@[at]);
        assert(entries@.take(at + 1)[at] == entries@[at]);
        match entry {
            (Some(name), Some(value)) => {
                let ghost added = (name@, value@);
                put_entry(&mut list, name, value);
                proof {
                    assert(all[at] == added);
                    assert(all.take(at + 1).drop_last() =~= all.take(at));
                    assert(all.take(at + 1).last() == added);
                    assert forall|i: int|
                        #![trigger entries@.take(at + 1)[i]]
                        0 <= i < at + 1 implies entries@.take(at + 1)[i].0 is Some
                        && entries@.take(at + 1)[i].1 is Some by {
                        if i < at {
                            assert(entries@.take(at)[i] == entries@[i]);
                        }
                    }
                }
            },
            _ => {
                assert(!is_textual(entries@));
                return Err(DaemonSpawnError::InvalidEnvironment);
            },
        }
    }
    assert(all.take(all.len() as int) =~= all);
    assert(entries@.take(entries@.len() as int) =~= entries@);
    Ok(list)
}

fn copy_optional(path: &Option<Vec<u8>>) -> (r: Option<Vec<u8>>)
    ensures
        optional_bytes(r) == optional_bytes(*path),
{
    match path {
        Some(bytes) => Some(vstd::slice::slice_to_vec(bytes.as_slice())),
        None => None,
    }
}

impl WorkerTransport {
    pub fn from_config(transport: &TransportConfig) -> (r: Self)
        ensures
            r@ == transport_text(*transport),
    {
        match transport {
            TransportConfig::Stdio { command, args, env, cwd } => WorkerTransport::Stdio {
                command: command.as_str().to_owned(),
                args: copy_texts(args),
                env: copy_entries(env),
                cwd: copy_optional(cwd),
            },
            TransportConfig::Http { url, headers } => WorkerTransport::Http {
                url: url.as_str().to_owned(),
                headers: copy_entries(headers),
            },
        }
    }
}

impl WorkerFilter {
    pub fn from_config(filter: &ToolFilterConfig) -> (r: Self)
        ensures
            text::texts(r.allowed_tools@) == text::texts(filter.allowed_tools@),
            text::texts(r.disabled_tools@) == text::texts(filter.disabled_tools@),
    {
        WorkerFilter {
            allowed_tools: copy_texts(&filter.allowed_tools),
            disabled_tools: copy_texts(&filter.disabled_tools),
        }
    }
}

/// Whether a transport can be used: a program has a name, and a URL is an HTTP
/// URL with a host.
pub open spec fn usable_transport(transport: TransportText) -> bool {
    match transport {
        TransportText::Stdio { command, args, env, cwd } => command.len() > 0,
        TransportText::Http { url, headers } => domain::parsed_url(url) matches Some(parsed) && (
        parsed.scheme == "http"@ || parsed.scheme == "https"@) && parsed.has_host,
    }
}

/// Whether a server can be taken over: its identifier is the one that belongs to
/// its name, its configuration hash can be read, and its transport can be used.
pub open spec fn usable_server(server: ServerText, expected_id: Seq<char>) -> bool {
    &&& server.id == expected_id
    &&& config::digest_of(vstd::utf8::encode_utf8(server.config_hash)) is Some
    &&& usable_transport(server.transport)
}

/// The transport text after its URL has been put into normal form.
pub open spec fn normal_transport(transport: TransportText) -> TransportText {
    match transport {
        TransportText::Http { url, headers } => match domain::parsed_url(url) {
            Some(parsed) => TransportText::Http { url: parsed.text, headers },
            None => transport,
        },
        other => other,
    }
}

/// A transport is the one that a text describes: its values are those of the
/// text, and its URL, with scheme and host, is what the text's URL parses to.
pub open spec fn takes_over(transport: TransportConfig, source: TransportText) -> bool {
    &&& transport_text(transport) == normal_transport(source)
    &&& match (transport, source) {
        (TransportConfig::Http { url, .. }, TransportText::Http { url: source_url, .. }) =>
            domain::parsed_url(source_url) == Some(url@),
        (TransportConfig::Stdio { .. }, TransportText::Stdio { .. }) => true,
        _ => false,
    }
}

fn into_transport(transport: WorkerTransport) -> (r: Option<TransportConfig>)
    ensures
        usable_transport(transport@) <==> r is Some,
        r matches Some(config) ==> takes_over(config, transport@),
{
    match transport {
        WorkerTransport::Stdio { command, args, env, cwd } => {
            if chars_of(command.as_str()).len() > 0 {
                Some(TransportConfig::Stdio { command, args, env, cwd })
            } else {
                None
            }
        },
        WorkerTransport::Http { url, headers } => {
            let url = match Url::parse(url.as_str()) {
                Some(url) => url,
                None => return None,
            };
            if (str_equal(url.scheme(), "http") || str_equal(url.scheme(), "https"))
                && url.has_host() {
                Some(TransportConfig::Http { url, headers })
            } else {
                None
            }
        },
    }
}

impl WorkerServer {
    pub fn from_definition(server: &ServerDefinition) -> (r: Self)
        ensures
            r@ == server_text(*server),
    {
        WorkerServer {
            name: server.name.as_str().to_owned(),
            id: server.id.0.as_str().to_owned(),
            config_hash: server.config_hash.to_hex(),
            transport: WorkerTransport::from_config(&server.transport),
            filter: WorkerFilter::from_config(&server.filter),
        }
    }

    /// Takes a server over, where `expected_id` is the identifier that belongs
    /// to its name.
    pub fn into_server_definition(self, expected_id: &str) -> (r: Result<
        ServerDefinition,
        WorkerBootstrapError,
    >)
        ensures
            if usable_server(self@, expected_id@) {
                r matches Ok(server) && {
                    &&& server.name@ == self@.name
                    &&& server.id.0@ == self@.id
                    &&& config::digest_of(vstd::utf8::encode_utf8(self@.config_hash)) == Some(
                        server.config_hash.0@,
                    )
                    &&& takes_over(server.transport, self@.transport)
                    &&& text::texts(server.filter.allowed_tools@) == self@.allowed_tools
                    &&& text::texts(server.filter.disabled_tools@) == self@.disabled_tools
                }
            } else {
                r matches Err(failure) && failure == WorkerBootstrapError::InvalidInput
            },
    {
        if !str_equal(expected_id, self.id.as_str()) {
            return Err(WorkerBootstrapError::InvalidInput);
        }
        let config_hash = match ConfigHash::from_hex(self.config_hash.as_str()) {
            Some(config_hash) => config_hash,
            None => return Err(WorkerBootstrapError::InvalidInput),
        };
        let transport = match into_transport(self.transport) {
            Some(transport) => transport,
            None => return Err(WorkerBootstrapError::InvalidInput),
        };
        Ok(
            ServerDefinition {
                name: self.name,
                id: ServerId(self.id),
                config_hash,
                transport,
                filter: ToolFilterConfig {
                    allowed_tools: self.filter.allowed_tools,
                    disabled_tools: self.filter.disabled_tools,
                },
            },
        )
    }
}

/// A span in whole milliseconds, at least one and at most what fits.
pub open spec fn clamped_millis(nanoseconds: nat) -> u64 {
    if nanoseconds / 1_000_000 < 1 {
        1
    } else if nanoseconds / 1_000_000 > u64::MAX {
        u64::MAX
    } else {
        (nanoseconds / 1_000_000) as u64
    }
}

pub fn duration_millis(duration: Duration) -> (r: u64)
    ensures
        r == clamped_millis(duration@),
{
    let milliseconds: u128 = duration.as_nanos() / 1_000_000;
    if milliseconds < 1 {
        1
    } else if milliseconds > u64::MAX as u128 {
        u64::MAX
    } else {
        milliseconds as u64
    }
}

/// What can be said in a bootstrap, apart from its server.
pub open spec fn valid_envelope(envelope: WorkerBootstrapEnvelope) -> bool {
    &&& envelope.version == WORKER_BOOTSTRAP_VERSION
    &&& envelope.idle_timeout_millis > 0
    &&& 0 < envelope.startup_timeout_millis <= WORKER_STARTUP_CAP_MILLIS
}

impl WorkerBootstrapEnvelope {
    pub fn new(
        server: &ServerDefinition,
        paths: &DaemonPaths,
        parent_environment: &Vec<(String, String)>,
        idle_timeout: Duration,
        startup_timeout: Duration,
    ) -> (r: Result<Self, DaemonSpawnError>)
        ensures
            match unix_path::parent(paths.runtime_dir@) {
                None => r matches Err(failure) && failure == DaemonSpawnError::InvalidPaths,
                Some(parent) => r matches Ok(envelope) && {
                    &&& envelope.version == WORKER_BOOTSTRAP_VERSION
                    &&& envelope.runtime_parent@ == parent
                    &&& envelope.server@ == server_text(*server)
                    &&& config::entry_texts(envelope.parent_environment@) == config::entry_texts(
                        parent_environment@,
                    )
                    &&& envelope.idle_timeout_millis == clamped_millis(idle_timeout@)
                    &&& envelope.startup_timeout_millis == clamped_millis(startup_timeout@)
                    &&& envelope.startup_fault is None
                },
            },
    {
        let runtime_parent = match parent_of(paths.runtime_dir.as_slice()) {
            Some(parent) => parent,
            None => return Err(DaemonSpawnError::InvalidPaths),
        };
        Ok(
            WorkerBootstrapEnvelope {
                version: WORKER_BOOTSTRAP_VERSION,
                runtime_parent,
                server: WorkerServer::from_definition(server),
                parent_environment: copy_entries(parent_environment),
                idle_timeout_millis: duration_millis(idle_timeout),
                startup_timeout_millis: duration_millis(startup_timeout),
                startup_fault: None,
            },
        )
    }

    /// Checks a bootstrap, where `expected_id` is the identifier that belongs to
    /// the server's name.
    pub fn validate(self, expected_id: &str) -> (r: Result<
        ValidatedWorkerBootstrap,
        WorkerBootstrapError,
    >)
        ensures
            if valid_envelope(self) && usable_server(self.server@, expected_id@) {
                r matches Ok(bootstrap) && {
                    &&& bootstrap.server.name@ == self.server@.name
                    &&& bootstrap.server.id.0@ == self.server@.id
                    &&& config::digest_of(vstd::utf8::encode_utf8(self.server@.config_hash))
                        == Some(bootstrap.server.config_hash.0@)
                    &&& takes_over(bootstrap.server.transport, self.server@.transport)
                    &&& text::texts(bootstrap.server.filter.allowed_tools@)
                        == self.server@.allowed_tools
                    &&& text::texts(bootstrap.server.filter.disabled_tools@)
                        == self.server@.disabled_tools
                    &&& bootstrap.runtime_parent == self.runtime_parent
                    &&& bootstrap.parent_environment == self.parent_environment
                    &&& bootstrap.idle_timeout@ == self.idle_timeout_millis * 1_000_000
                    &&& bootstrap.startup_timeout@ == self.startup_timeout_millis * 1_000_000
                    &&& bootstrap.startup_fault == self.startup_fault
                }
            } else {
                r matches Err(failure) && failure == WorkerBootstrapError::InvalidInput
            },
    {
        if self.version != WORKER_BOOTSTRAP_VERSION || self.idle_timeout_millis == 0
            || self.startup_timeout_millis == 0 || self.startup_timeout_millis
            > WORKER_STARTUP_CAP_MILLIS {
            return Err(WorkerBootstrapError::InvalidInput);
        }
        let server = match self.server.into_server_definition(expected_id) {
            Ok(server) => server,
            Err(failure) => return Err(failure),
        };
        Ok(
            ValidatedWorkerBootstrap {
                server,
                runtime_parent: self.runtime_parent,
                parent_environment: self.parent_environment,
                idle_timeout: Duration::from_millis(self.idle_timeout_millis),
                startup_timeout: Duration::from_millis(self.startup_timeout_millis),
                startup_fault: self.startup_fault,
            },
        )
    }
}

/// Whether input of a length can be a bootstrap.
pub fn accepts_bootstrap_length(length: usize) -> (r: bool)
    ensures
        r == (0 < length <= WORKER_BOOTSTRAP_MAX_BYTES),
{
    0 < length && length <= WORKER_BOOTSTRAP_MAX_BYTES
}

/// The secrets of a worker: every configured value of its server.
pub fn configured_worker_secrets(server: &ServerDefinition) -> (r: SecretSet)
    ensures
        r.wf(),
        r@ == config::with_values(Set::empty(), config::transport_values(server.transport)),
{
    let mut secrets = SecretSet::new();
    register_transport_secrets(&mut secrets, &server.transport);
    secrets
}

/// Where a server is configured to be slow, for deterministic fixtures.
pub const TEST_DAEMON_PING_DELAY_ENV: &'static str = "MCP_CLI_TEST_DAEMON_PING_DELAY_MS";

pub const TEST_DAEMON_CALL_DELAY_ENV: &'static str = "MCP_CLI_TEST_DAEMON_CALL_DELAY_MS";

/// How long a worker waits before it executes a request.
#[derive(Clone, Copy, Debug, PartialEq, Eq)]
pub struct WorkerFixtureDelays {
    pub ping: Duration,
    pub call: Duration,
}

/// The value of the first entry with a name.
pub open spec fn entry_value(
    entries: Seq<(Seq<char>, Seq<char>)>,
    name: Seq<char>,
) -> Option<Seq<char>>
    decreases entries.len(),
{
    if entries.len() == 0 {
        None
    } else if entries[0].0 == name {
        Some(entries[0].1)
    } else {
        entry_value(entries.skip(1), name)
    }
}

/// The delay that an environment sets, in nanoseconds; none where the entry is
/// no number of milliseconds.
pub open spec fn configured_delay(entries: Seq<(Seq<char>, Seq<char>)>, name: Seq<char>) -> nat {
    match entry_value(entries, name) {
        Some(value) => match bytes::unsigned(vstd::utf8::encode_utf8(value), u64::MAX as nat) {
            Some(milliseconds) => milliseconds * 1_000_000,
            None => 0,
        },
        None => 0,
    }
}

fn find_delay(entries: &Vec<(String, String)>, name: &str) -> (r: Duration)
    ensures
        r@ == configured_delay(config::entry_texts(entries@), name@),
{
    let ghost all = config::entry_texts(entries@);
    let mut index: usize = 0;
    assert(all.skip(0) =~= all);
    while index < entries.len()
        invariant
            index <= entries.len(),
            all == config::entry_texts(entries@),
            entry_value(all, name@) == entry_value(all.skip(index as int), name@),
        decreases entries.len() - index,
    {
        assert(all.skip(index as int)[0] == all[index as int]);
        assert(all[index as int] == (entries@[index as int].0@, entries@[index as int].1@));
        if str_equal(entries[index].0.as_str(), name) {
            return match parse_unsigned(entries[index].1.as_str().as_bytes(), u64::MAX) {
                Some(milliseconds) => Duration::from_millis(milliseconds),
                None => Duration::zero(),
            };
        }
        assert(all.skip(index as int).skip(1) =~= all.skip(index + 1));
        index += 1;
    }
    Duration::zero()
}

/// The delays that a server is configured with; only a program has any.
pub fn worker_fixture_delays(server: &ServerDefinition) -> (r: WorkerFixtureDelays)
    ensures
        match server.transport {
            TransportConfig::Stdio { command, args, env, cwd } => {
                &&& r.ping@ == configured_delay(
                    config::entry_texts(env@),
                    TEST_DAEMON_PING_DELAY_ENV@,
                )
                &&& r.call@ == configured_delay(
                    config::entry_texts(env@),
                    TEST_DAEMON_CALL_DELAY_ENV@,
                )
            },
            TransportConfig::Http { url, headers } => r.ping@ == 0 && r.call@ == 0,
        },
{
    match &server.transport {
        TransportConfig::Stdio { env, .. } => WorkerFixtureDelays {
            ping: find_delay(env, TEST_DAEMON_PING_DELAY_ENV),
            call: find_delay(env, TEST_DAEMON_CALL_DELAY_ENV),
        },
        TransportConfig::Http { .. } => WorkerFixtureDelays {
            ping: Duration::zero(),
            call: Duration::zero(),
        },
    }
}

impl WorkerFixtureDelays {
    /// How long to wait before an operation.
    pub fn before_request(&self, operation: &IpcOperation) -> (r: Duration)
        ensures
            r@ == (match operation {
                IpcOperation::Ping => self.ping@,
                IpcOperation::CallTool { .. } => self.call@,
                _ => 0,
            }),
    {
        match operation {
            IpcOperation::Ping => self.ping,
            IpcOperation::CallTool { .. } => self.call,
            _ => Duration::zero(),
        }
    }
}

/// Starts workers from the current executable, or from an injected one.
#[derive(Clone, Debug, PartialEq, Eq)]
pub struct CurrentExecutableDaemonSpawner {
    pub executable: Option<Vec<u8>>,
    pub idle_timeout: Duration,
    pub startup_fault: Option<WorkerStartupFault>,
}

impl CurrentExecutableDaemonSpawner {
    pub fn new(idle_timeout: Duration) -> (r: Self)
        ensures
            r.executable is None,
            r.idle_timeout == idle_timeout,
            r.startup_fault is None,
    {
        CurrentExecutableDaemonSpawner { executable: None, idle_timeout, startup_fault: None }
    }

    pub fn with_executable(executable: Vec<u8>, idle_timeout: Duration) -> (r: Self)
        ensures
            r.executable == Some(executable),
            r.idle_timeout == idle_timeout,
            r.startup_fault is None,
    {
        CurrentExecutableDaemonSpawner {
            executable: Some(executable),
            idle_timeout,
            startup_fault: None,
        }
    }

    /// Injects a payload-free startup failure into the worker process.
    pub fn with_startup_fault(self, fault: WorkerStartupFault) -> (r: Self)
        ensures
            r == (CurrentExecutableDaemonSpawner { startup_fault: Some(fault), ..self }),
    {
        CurrentExecutableDaemonSpawner {
            executable: self.executable,
            idle_timeout: self.idle_timeout,
            startup_fault: Some(fault),
        }
    }
}

/// A server that is handed over to a worker is taken over unchanged: what the
/// parent writes is usable, and reads as the same server, provided its URL is in
/// normal form.
pub proof fn servers_survive_the_bootstrap(server: ServerDefinition)
    requires
        match server.transport {
            TransportConfig::Stdio { command, args, env, cwd } => command@.len() > 0,
            TransportConfig::Http { url, headers } => domain::parsed_url(url@.text) == Some(url@)
                && (url@.scheme == "http"@ || url@.scheme == "https"@) && url@.has_host,
        },
    ensures
        usable_server(server_text(server), server.id.0@),
        config::digest_of(vstd::utf8::encode_utf8(server_text(server).config_hash)) == Some(
            server.config_hash.0@,
        ),
        normal_transport(server_text(server).transport) == server_text(server).transport,
        forall|taken: TransportConfig| #[trigger]
            takes_over(taken, server_text(server).transport) ==> transport_text(taken)
                == transport_text(server.transport) && (server.transport matches
                TransportConfig::Http { url, headers } ==> taken matches TransportConfig::Http {
                url: taken_url,
                headers: taken_headers,
            } && taken_url@ == url@),
{
    config::digests_survive_their_text(server.config_hash.0@);
}

/// What a parent hands over is a bootstrap that the worker accepts, as long as
/// the worker may start within its cap.
pub proof fn spans_survive_the_bootstrap(nanoseconds: nat)
    ensures
        clamped_millis(nanoseconds) > 0,
        nanoseconds <= WORKER_STARTUP_CAP_MILLIS * 1_000_000 ==> clamped_millis(nanoseconds)
            <= WORKER_STARTUP_CAP_MILLIS,
        nanoseconds % 1_000_000 == 0 && 1_000_000 <= nanoseconds <= u64::MAX * 1_000_000
            ==> clamped_millis(nanoseconds) * 1_000_000 == nanoseconds,
{
}

/// A worker is ready with the byte 1 in at most five seconds, and its bootstrap
/// has between one byte and sixteen mebibytes.
pub proof fn bootstraps_have_their_bounds(cap: Duration, length: usize, accepted: bool)
    requires
        call_ensures(worker_startup_cap, (), cap),
        call_ensures(accepts_bootstrap_length, (length,), accepted),
    ensures
        cap@ == 5_000_000_000,
        accepted <==> 1 <= length <= 16_777_216,
        WORKER_READY_BYTE == 1,
        WORKER_BOOTSTRAP_VERSION == 1,
{
}

/// Each failure of a worker is said in its own words.
pub proof fn worker_failures_are_said_in_words(failure: WorkerBootstrapError, r: &'static str)
    requires
        call_ensures(WorkerBootstrapError::display_text, (failure,), r),
    ensures
        failure is InvalidInput ==> r@ == "invalid daemon worker bootstrap"@,
        failure is UnsafeRuntime ==> r@ == "unsafe daemon worker runtime"@,
        failure is LockHeld ==> r@ == "daemon worker already starting or running"@,
        failure is BackendInitialization ==> r@ == "daemon MCP initialization failed"@,
        failure is SocketPublication ==> r@ == "daemon socket publication failed"@,
        failure is MetadataPublication ==> r@ == "daemon metadata publication failed"@,
        failure is ReadyPublication ==> r@ == "daemon ready publication failed"@,
        failure is SignalBeforeReady ==> r@ == "daemon startup interrupted"@,
        failure is Service ==> r@ == "daemon worker service failed"@,
{
}

/// Two lists of texts hold the same texts.
pub open spec fn same_texts(left: Seq<String>, right: Seq<String>) -> bool {
    &&& left.len() == right.len()
    &&& forall|i: int| 0 <= i < left.len() ==> (#[trigger] left[i])@ == right[i]@
}

/// Two lists of entries hold the same names and values.
pub open spec fn same_entries(left: Seq<(String, String)>, right: Seq<(String, String)>) -> bool {
    &&& left.len() == right.len()
    &&& forall|i: int|
        0 <= i < left.len() ==> (#[trigger] left[i]).0@ == right[i].0@ && left[i].1@ == right[i].1@
}

proof fn lemma_same_texts(left: Seq<String>, right: Seq<String>)
    requires
        text::texts(left) == text::texts(right),
    ensures
        same_texts(left, right),
{
    assert(text::texts(left).len() == left.len());
    assert(text::texts(right).len() == right.len());
    assert forall|i: int| 0 <= i < left.len() implies (#[trigger] left[i])@ == right[i]@ by {
        assert(text::texts(left)[i] == left[i]@);
        assert(text::texts(right)[i] == right[i]@);
    }
}

proof fn lemma_equal_entries(left: Seq<(String, String)>, right: Seq<(String, String)>)
    requires
        config::entry_texts(left) == config::entry_texts(right),
    ensures
        same_entries(left, right),
{
    assert(config::entry_texts(left).len() == left.len());
    assert(config::entry_texts(right).len() == right.len());
    assert forall|i: int| 0 <= i < left.len() implies (#[trigger] left[i]).0@ == right[i].0@
        && left[i].1@ == right[i].1@ by {
        assert(config::entry_texts(left)[i] == (left[i].0@, left[i].1@));
        assert(config::entry_texts(right)[i] == (right[i].0@, right[i].1@));
    }
}

/// What a worker is sent of its server is what the server is configured with:
/// name, identifier, hash, transport and filter, value by value.
pub proof fn workers_are_sent_their_configuration(server: &ServerDefinition, r: WorkerServer)
    requires
        call_ensures(WorkerServer::from_definition, (server,), r),
    ensures
        r.name@ == server.name@,
        r.id@ == server.id.0@,
        r.config_hash@ == config::hex_of(server.config_hash.0@),
        same_texts(r.filter.allowed_tools@, server.filter.allowed_tools@),
        same_texts(r.filter.disabled_tools@, server.filter.disabled_tools@),
        match server.transport {
            TransportConfig::Stdio { command, args, env, cwd } => {
                &&& r.transport matches WorkerTransport::Stdio {
                    command: sent_command,
                    args: sent_args,
                    env: sent_env,
                    cwd: sent_cwd,
                }
                &&& sent_command@ == command@
                &&& same_texts(sent_args@, args@)
                &&& same_entries(sent_env@, env@)
                &&& cwd matches Some(path) ==> (sent_cwd matches Some(sent) && sent@ == path@)
                &&& cwd is None ==> sent_cwd is None
            },
            TransportConfig::Http { url, headers } => {
                &&& r.transport matches WorkerTransport::Http { url: sent_url, headers: sent }
                &&& sent_url@ == url@.text
                &&& same_entries(sent@, headers@)
            },
        },
{
    lemma_same_texts(r.filter.allowed_tools@, server.filter.allowed_tools@);
    lemma_same_texts(r.filter.disabled_tools@, server.filter.disabled_tools@);
    match (server.transport, r.transport) {
        (
            TransportConfig::Stdio { args, env, .. },
            WorkerTransport::Stdio { args: sent_args, env: sent_env, .. },
        ) => {
            lemma_same_texts(sent_args@, args@);
            lemma_equal_entries(sent_env@, env@);
        },
        (TransportConfig::Http { headers, .. }, WorkerTransport::Http { headers: sent, .. }) => {
            lemma_equal_entries(sent@, headers@);
        },
        _ => {},
    }
}

/// A worker takes a bootstrap over exactly where its version, timeouts, server
/// identifier, hash and transport are in order, and then takes it over value by
/// value.
pub proof fn workers_take_over_sound_bootstraps(
    envelope: WorkerBootstrapEnvelope,
    expected_id: &str,
    r: Result<ValidatedWorkerBootstrap, WorkerBootstrapError>,
)
    requires
        call_ensures(WorkerBootstrapEnvelope::validate, (envelope, expected_id), r),
    ensures
        r is Ok <==> {
            &&& envelope.version == 1
            &&& envelope.idle_timeout_millis > 0
            &&& 0 < envelope.startup_timeout_millis <= 5_000
            &&& envelope.server.id@ == expected_id@
            &&& config::digest_of(vstd::utf8::encode_utf8(envelope.server.config_hash@)) is Some
            &&& match envelope.server.transport {
                WorkerTransport::Stdio { command, .. } => command@.len() > 0,
                WorkerTransport::Http { url, .. } => domain::parsed_url(url@) matches Some(parsed)
                    && (parsed.scheme == "http"@ || parsed.scheme == "https"@) && parsed.has_host,
            }
        },
        r matches Err(failure) ==> failure is InvalidInput,
        r matches Ok(taken) ==> {
            &&& taken.idle_timeout@ == envelope.idle_timeout_millis * 1_000_000
            &&& taken.startup_timeout@ == envelope.startup_timeout_millis * 1_000_000
            &&& taken.runtime_parent@ == envelope.runtime_parent@
            &&& taken.parent_environment@ == envelope.parent_environment@
            &&& taken.startup_fault == envelope.startup_fault
            &&& taken.server.name@ == envelope.server.name@
            &&& taken.server.id.0@ == expected_id@
            &&& config::digest_of(vstd::utf8::encode_utf8(envelope.server.config_hash@)) == Some(
                taken.server.config_hash.0@,
            )
            &&& same_texts(
                taken.server.filter.allowed_tools@,
                envelope.server.filter.allowed_tools@,
            )
            &&& same_texts(
                taken.server.filter.disabled_tools@,
                envelope.server.filter.disabled_tools@,
            )
            &&& match envelope.server.transport {
                WorkerTransport::Stdio { command, args, env, cwd } => {
                    &&& taken.server.transport matches TransportConfig::Stdio {
                        command: taken_command,
                        args: taken_args,
                        env: taken_env,
                        cwd: taken_cwd,
                    }
                    &&& taken_command@ == command@
                    &&& same_texts(taken_args@, args@)
                    &&& same_entries(taken_env@, env@)
                    &&& cwd matches Some(path) ==> (taken_cwd matches Some(found) && found@
                        == path@)
                    &&& cwd is None ==> taken_cwd is None
                },
                WorkerTransport::Http { url, headers } => {
                    &&& taken.server.transport matches TransportConfig::Http {
                        url: taken_url,
                        headers: taken_headers,
                    }
                    &&& domain::parsed_url(url@) == Some(taken_url@)
                    &&& same_entries(taken_headers@, headers@)
                },
            }
        },
{
    if let Ok(taken) = r {
        lemma_same_texts(
            taken.server.filter.allowed_tools@,
            envelope.server.filter.allowed_tools@,
        );
        lemma_same_texts(
            taken.server.filter.disabled_tools@,
            envelope.server.filter.disabled_tools@,
        );
        match (envelope.server.transport, taken.server.transport) {
            (
                WorkerTransport::Stdio { args, env, .. },
                TransportConfig::Stdio { args: taken_args, env: taken_env, .. },
            ) => {
                lemma_same_texts(taken_args@, args@);
                lemma_equal_entries(taken_env@, env@);
            },
            (
                WorkerTransport::Http { headers, .. },
                TransportConfig::Http { headers: taken_headers, .. },
            ) => {
                lemma_equal_entries(taken_headers@, headers@);
            },
            _ => {},
        }
    }
}

/// A span is sent in whole milliseconds, rounded down, but never as none.
pub proof fn spans_are_rounded_down(duration: Duration, r: u64)
    requires
        call_ensures(duration_millis, (duration,), r),
    ensures
        1_000_000 <= duration@ < (u64::MAX + 1) * 1_000_000 ==> r * 1_000_000 <= duration@ < (r
            + 1) * 1_000_000,
        duration@ < 1_000_000 ==> r == 1,
        duration@ >= (u64::MAX + 1) * 1_000_000 ==> r == u64::MAX,
{
}

/// A bootstrap is written for the directory that holds the runtime directory, and
/// sends spans, environment and server as they are given.
pub proof fn bootstraps_say_what_they_are_given(
    server: &ServerDefinition,
    paths: &DaemonPaths,
    parent_environment: &Vec<(String, String)>,
    idle_timeout: Duration,
    startup_timeout: Duration,
    r: Result<WorkerBootstrapEnvelope, DaemonSpawnError>,
)
    requires
        call_ensures(
            WorkerBootstrapEnvelope::new,
            (server, paths, parent_environment, idle_timeout, startup_timeout),
            r,
        ),
    ensures
        r is Ok <==> unix_path::parent(paths.runtime_dir@) is Some,
        r matches Err(failure) ==> failure is InvalidPaths,
        r matches Ok(envelope) ==> {
            &&& envelope.version == 1
            &&& Some(envelope.runtime_parent@) == unix_path::parent(paths.runtime_dir@)
            &&& same_entries(envelope.parent_environment@, parent_environment@)
            &&& envelope.startup_fault is None
            &&& envelope.server.name@ == server.name@
            &&& envelope.server.id@ == server.id.0@
            &&& idle_timeout@ % 1_000_000 == 0 && 1_000_000 <= idle_timeout@ <= u64::MAX
                * 1_000_000 ==> envelope.idle_timeout_millis * 1_000_000 == idle_timeout@
            &&& startup_timeout@ % 1_000_000 == 0 && 1_000_000 <= startup_timeout@ <= u64::MAX
                * 1_000_000 ==> envelope.startup_timeout_millis * 1_000_000 == startup_timeout@
        },
{
    if let Ok(envelope) = r {
        lemma_equal_entries(envelope.parent_environment@, parent_environment@);
        spans_survive_the_bootstrap(idle_timeout@);
        spans_survive_the_bootstrap(startup_timeout@);
    }
}

/// A worker hides every value of its server's environment or headers, and nothing
/// else.
pub proof fn workers_hide_their_values(server: &ServerDefinition, r: SecretSet)
    requires
        call_ensures(configured_worker_secrets, (server,), r),
    ensures
        forall|j: int|
            #![trigger config::entry_of(server.transport, j)]
            0 <= j < config::entry_count(server.transport) && vstd::utf8::encode_utf8(
                config::entry_of(server.transport, j).1@,
            ).len() > 0 ==> r@.contains(
                vstd::utf8::encode_utf8(config::entry_of(server.transport, j).1@),
            ),
        forall|value: Seq<u8>| #[trigger]
            r@.contains(value) ==> value.len() > 0 && config::holds_value(server.transport, value),
{
    assert forall|j: int|
        #![trigger config::entry_of(server.transport, j)]
        0 <= j < config::entry_count(server.transport) && vstd::utf8::encode_utf8(
            config::entry_of(server.transport, j).1@,
        ).len() > 0 implies r@.contains(
        vstd::utf8::encode_utf8(config::entry_of(server.transport, j).1@),
    ) by {
        let value = vstd::utf8::encode_utf8(config::entry_of(server.transport, j).1@);
        assert(config::holds_value(server.transport, value));
        config::lemma_transport_values(server.transport, value);
    }
    assert forall|value: Seq<u8>| #[trigger] r@.contains(value) implies value.len() > 0
        && config::holds_value(server.transport, value) by {
        config::lemma_transport_values(server.transport, value);
    }
}

proof fn lemma_first_entry(entries: Seq<(Seq<char>, Seq<char>)>, name: Seq<char>, i: int)
    ensures
        0 <= i < entries.len() && entries[i].0 == name && (forall|k: int|
            0 <= k < i ==> (#[trigger] entries[k]).0 != name) ==> entry_value(entries, name)
            == Some(entries[i].1),
        (forall|k: int| 0 <= k < entries.len() ==> (#[trigger] entries[k]).0 != name)
            ==> entry_value(entries, name) is None,
    decreases entries.len(),
{
    if entries.len() > 0 {
        let tail = entries.skip(1);
        if entries[0].0 != name {
            lemma_first_entry(tail, name, i - 1);
            assert forall|k: int| 0 <= k < tail.len() implies #[trigger] tail[k] == entries[k
                + 1] by {}
        }
    }
}

/// The delays of a program are those that the first entries of their names give
/// in milliseconds; nothing else delays a request.
pub proof fn delays_are_read_from_their_entries(
    server: &ServerDefinition,
    command: String,
    args: Vec<String>,
    env: Vec<(String, String)>,
    cwd: Option<Vec<u8>>,
    i: int,
    r: WorkerFixtureDelays,
)
    requires
        call_ensures(worker_fixture_delays, (server,), r),
        server.transport == (TransportConfig::Stdio { command, args, env, cwd }),
    ensures
        0 <= i < env@.len() && env@[i].0@ == "MCP_CLI_TEST_DAEMON_PING_DELAY_MS"@ && (forall|k: int|
            0 <= k < i ==> (#[trigger] env@[k]).0@ != "MCP_CLI_TEST_DAEMON_PING_DELAY_MS"@)
            ==> r.ping@ == (match bytes::unsigned(
            vstd::utf8::encode_utf8(env@[i].1@),
            u64::MAX as nat,
        ) {
            Some(milliseconds) => milliseconds * 1_000_000,
            None => 0,
        }),
        0 <= i < env@.len() && env@[i].0@ == "MCP_CLI_TEST_DAEMON_CALL_DELAY_MS"@ && (forall|k: int|
            0 <= k < i ==> (#[trigger] env@[k]).0@ != "MCP_CLI_TEST_DAEMON_CALL_DELAY_MS"@)
            ==> r.call@ == (match bytes::unsigned(
            vstd::utf8::encode_utf8(env@[i].1@),
            u64::MAX as nat,
        ) {
            Some(milliseconds) => milliseconds * 1_000_000,
            None => 0,
        }),
        (forall|k: int|
            0 <= k < env@.len() ==> (#[trigger] env@[k]).0@
                != "MCP_CLI_TEST_DAEMON_PING_DELAY_MS"@) ==> r.ping@ == 0,
        (forall|k: int|
            0 <= k < env@.len() ==> (#[trigger] env@[k]).0@
                != "MCP_CLI_TEST_DAEMON_CALL_DELAY_MS"@) ==> r.call@ == 0,
{
    let entries = config::entry_texts(env@);
    assert(entries.len() == env@.len());
    assert forall|k: int| 0 <= k < entries.len() implies #[trigger] entries[k] == (
        env@[k].0@,
        env@[k].1@,
    ) by {}
    lemma_first_entry(entries, "MCP_CLI_TEST_DAEMON_PING_DELAY_MS"@, i);
    lemma_first_entry(entries, "MCP_CLI_TEST_DAEMON_CALL_DELAY_MS"@, i);
}

proof fn lemma_last_entry_counts(pairs: Seq<(Seq<char>, Seq<char>)>, i: int)
    requires
        0 <= i < pairs.len(),
        forall|k: int| i < k < pairs.len() ==> (#[trigger] pairs[k]).0 != pairs[i].0,
    ensures
        assoc::as_map(pairs).dom().contains(pairs[i].0),
        assoc::as_map(pairs)[pairs[i].0] == pairs[i].1,
    decreases pairs.len(),
{
    let head = pairs.drop_last();
    if i < pairs.len() - 1 {
        assert(pairs[pairs.len() - 1].0 != pairs[i].0);
        assert forall|k: int| i < k < head.len() implies (#[trigger] head[k]).0 != head[i].0 by {
            assert(head[k] == pairs[k]);
        }
        lemma_last_entry_counts(head, i);
    }
}

proof fn lemma_only_listed_names(pairs: Seq<(Seq<char>, Seq<char>)>, name: Seq<char>)
    requires
        assoc::as_map(pairs).dom().contains(name),
    ensures
        exists|i: int| 0 <= i < pairs.len() && (#[trigger] pairs[i]).0 == name,
    decreases pairs.len(),
{
    if pairs.len() > 0 {
        let head = pairs.drop_last();
        if pairs.last().0 == name {
            assert(pairs[pairs.len() - 1].0 == name);
        } else {
            lemma_only_listed_names(head, name);
            let i = choose|i: int| 0 <= i < head.len() && (#[trigger] head[i]).0 == name;
            assert(pairs[i].0 == name);
        }
    }
}

/// The environment of a worker holds every variable of its parent once, in the
/// order of the names and with the value that came last; it is refused where
/// anything in it is no text.
pub proof fn workers_get_their_parents_environment(
    entries: Vec<(Option<String>, Option<String>)>,
    r: Result<Vec<(String, String)>, DaemonSpawnError>,
    i: int,
    j: int,
)
    requires
        call_ensures(worker_parent_environment, (entries,), r),
    ensures
        r is Err <==> exists|k: int|
            0 <= k < entries@.len() && ((#[trigger] entries@[k]).0 is None || entries@[k].1
                is None),
        r matches Err(failure) ==> failure is InvalidEnvironment,
        r matches Ok(list) ==> {
            &&& 0 <= i < j < list@.len() ==> text::text_before(list@[i].0@, list@[j].0@)
            &&& 0 <= i < list@.len() ==> exists|k: int|
                0 <= k < entries@.len() && (#[trigger] entries@[k]).0->0@ == list@[i].0@
            &&& 0 <= i < entries@.len() && (forall|k: int|
                i < k < entries@.len() ==> (#[trigger] entries@[k]).0->0@ != entries@[i].0->0@)
                ==> exists|k: int|
                0 <= k < list@.len() && (#[trigger] list@[k]).0@ == entries@[i].0->0@ && list@[k].1@
                    == entries@[i].1->0@
        },
{
    if let Ok(list) = r {
        let pairs = config::entry_texts(list@);
        let given = environment_texts(entries@);
        assert(pairs.len() == list@.len());
        assert(given.len() == entries@.len());
        assert forall|k: int| 0 <= k < pairs.len() implies #[trigger] pairs[k] == (
            list@[k].0@,
            list@[k].1@,
        ) by {}
        assert forall|k: int| 0 <= k < given.len() implies #[trigger] given[k] == (
            entries@[k].0->0@,
            entries@[k].1->0@,
        ) by {}
        if 0 <= i < j < list@.len() {
            assert(text::text_before(pairs[i].0, pairs[j].0));
        }
        lemma_ordered_is_distinct(pairs);
        assoc::lemma_lookup(pairs);
        if 0 <= i < list@.len() {
            assert(assoc::as_map(pairs).dom().contains(pairs[i].0));
            lemma_only_listed_names(given, pairs[i].0);
            let k = choose|k: int| 0 <= k < given.len() && (#[trigger] given[k]).0 == pairs[i].0;
            assert(entries@[k].0->0@ == list@[i].0@);
        }
        if 0 <= i < entries@.len() && (forall|k: int|
            i < k < entries@.len() ==> (#[trigger] entries@[k]).0->0@ != entries@[i].0->0@) {
            assert forall|k: int| i < k < given.len() implies (#[trigger] given[k]).0
                != given[i].0 by {
                assert(entries@[k].0->0@ != entries@[i].0->0@);
            }
            lemma_last_entry_counts(given, i);
            let k = choose|k: int| 0 <= k < pairs.len() && (#[trigger] pairs[k]).0 == given[i].0;
            assert(pairs[k].1 == given[i].1);
            assert(list@[k].0@ == entries@[i].0->0@);
        }
    }
}

} // verus!
