//! The bootstrap of a worker as JSON text.

use vstd::prelude::*;

use crate::config;
use crate::daemon::worker::bootstrap;
use crate::daemon::worker::bootstrap::{
    accepts_bootstrap_length, DaemonSpawnError, ServerText, TransportText, WorkerBootstrapEnvelope,
    WorkerBootstrapError, WorkerFilter, WorkerServer, WorkerTransport, WORKER_BOOTSTRAP_MAX_BYTES,
};
use crate::json;
use crate::json::{object_text, parse_json, Json, JsonObject, JsonValue};
use crate::order;
use crate::policy::redact;
use crate::text;
use crate::text::{is_utf8, str_equal};

verus! {

/// A bootstrap as text. A startup fault is never transferred.
#[verifier::ext_equal]
pub struct EnvelopeText {
    pub version: u8,
    pub runtime_parent: Seq<u8>,
    pub server: ServerText,
    pub parent_environment: Seq<(Seq<char>, Seq<char>)>,
    pub idle_timeout_millis: u64,
    pub startup_timeout_millis: u64,
}

/// What is transferred of a bootstrap.
pub open spec fn envelope_text(envelope: WorkerBootstrapEnvelope) -> EnvelopeText {
    EnvelopeText {
        version: envelope.version,
        runtime_parent: envelope.runtime_parent@,
        server: envelope.server@,
        parent_environment: config::entry_texts(envelope.parent_environment@),
        idle_timeout_millis: envelope.idle_timeout_millis,
        startup_timeout_millis: envelope.startup_timeout_millis,
    }
}

/// A list of strings as an array.
pub open spec fn texts_json(list: Seq<Seq<char>>) -> Json {
    Json::Array(list.map_values(|entry: Seq<char>| Json::Str(entry)))
}

/// Named strings as members of an object.
pub open spec fn entry_members(pairs: Seq<(Seq<char>, Seq<char>)>) -> Seq<(Seq<char>, Json)> {
    pairs.map_values(|pair: (Seq<char>, Seq<char>)| (pair.0, Json::Str(pair.1)))
}

/// Named strings as an object.
pub open spec fn entries_json(pairs: Seq<(Seq<char>, Seq<char>)>) -> Json {
    Json::Object(json::member_map(entry_members(pairs)))
}

/// A path that is text.
pub open spec fn path_json(path: Seq<u8>) -> Json {
    Json::Str(vstd::utf8::decode_utf8(path))
}

pub open spec fn optional_path_json(path: Option<Seq<u8>>) -> Json {
    match path {
        Some(bytes) => path_json(bytes),
        None => Json::Null,
    }
}

/// A transport as members of an object.
pub open spec fn transport_members(transport: TransportText) -> Seq<(Seq<char>, Json)> {
    match transport {
        TransportText::Stdio { command, args, env, cwd } => seq![
            ("kind"@, Json::Str("Stdio"@)),
            ("command"@, Json::Str(command)),
            ("args"@, texts_json(args)),
            ("env"@, entries_json(env)),
            ("cwd"@, optional_path_json(cwd)),
        ],
        TransportText::Http { url, headers } => seq![
            ("kind"@, Json::Str("Http"@)),
            ("url"@, Json::Str(url)),
            ("headers"@, entries_json(headers)),
        ],
    }
}

pub open spec fn transport_json(transport: TransportText) -> Json {
    Json::Object(json::member_map(transport_members(transport)))
}

/// The tool patterns of a server as members of an object.
pub open spec fn filter_members(
    allowed: Seq<Seq<char>>,
    disabled: Seq<Seq<char>>,
) -> Seq<(Seq<char>, Json)> {
    seq![("allowed_tools"@, texts_json(allowed)), ("disabled_tools"@, texts_json(disabled))]
}

pub open spec fn filter_json(allowed: Seq<Seq<char>>, disabled: Seq<Seq<char>>) -> Json {
    Json::Object(json::member_map(filter_members(allowed, disabled)))
}

/// A server as members of an object.
pub open spec fn server_members(server: ServerText) -> Seq<(Seq<char>, Json)> {
    seq![
        ("name"@, Json::Str(server.name)),
        ("id"@, Json::Str(server.id)),
        ("config_hash"@, Json::Str(server.config_hash)),
        ("transport"@, transport_json(server.transport)),
        ("filter"@, filter_json(server.allowed_tools, server.disabled_tools)),
    ]
}

pub open spec fn server_json(server: ServerText) -> Json {
    Json::Object(json::member_map(server_members(server)))
}

/// A bootstrap as members of an object.
pub open spec fn envelope_members(envelope: EnvelopeText) -> Seq<(Seq<char>, Json)> {
    seq![
        ("version"@, Json::Unsigned(envelope.version as u64)),
        ("runtime_parent"@, path_json(envelope.runtime_parent)),
        ("server"@, server_json(envelope.server)),
        ("parent_environment"@, entries_json(envelope.parent_environment)),
        ("idle_timeout_millis"@, Json::Unsigned(envelope.idle_timeout_millis)),
        ("startup_timeout_millis"@, Json::Unsigned(envelope.startup_timeout_millis)),
    ]
}

pub open spec fn envelope_json(envelope: EnvelopeText) -> Json {
    Json::Object(json::member_map(envelope_members(envelope)))
}

/// Every path of a bootstrap is text.
pub open spec fn textual_paths(envelope: EnvelopeText) -> bool {
    &&& vstd::utf8::valid_utf8(envelope.runtime_parent)
    &&& textual_directory(envelope.server.transport)
}

/// A working directory, where there is one, is text.
pub open spec fn textual_directory(transport: TransportText) -> bool {
    transport matches TransportText::Stdio { command, args, env, cwd } ==> (cwd matches Some(path)
        ==> vstd::utf8::valid_utf8(path))
}

/// The named strings of a bootstrap stand in the order of their names.
pub open spec fn ordered_entries(envelope: EnvelopeText) -> bool {
    &&& bootstrap::ordered(envelope.parent_environment)
    &&& match envelope.server.transport {
        TransportText::Stdio { command, args, env, cwd } => bootstrap::ordered(env),
        TransportText::Http { url, headers } => bootstrap::ordered(headers),
    }
}

/// The strings that an array holds.
pub open spec fn texts_of(value: Json) -> Option<Seq<Seq<char>>> {
    match value {
        Json::Array(items) => if forall|i: int| 0 <= i < items.len() ==> #[trigger] items[i] is Str {
            Some(items.map_values(|item: Json| item->Str_0))
        } else {
            None
        },
        _ => None,
    }
}

/// The members of an object of strings in the order of their names.
pub open spec fn listed(members: Map<Seq<char>, Json>) -> Seq<(Seq<char>, Seq<char>)> {
    order::ascending_list(members.dom()).map_values(
        |name: Seq<char>| (name, members[name]->Str_0),
    )
}

/// The named strings that an object holds.
pub open spec fn entries_of(value: Json) -> Option<Seq<(Seq<char>, Seq<char>)>> {
    match value {
        Json::Object(members) => if forall|name: Seq<char>| #[trigger]
            members.dom().contains(name) ==> members[name] is Str {
            Some(listed(members))
        } else {
            None
        },
        _ => None,
    }
}

/// The program that the fields of a transport describe.
pub open spec fn stdio_of(command: Json, args: Json, env: Json, cwd: Json) -> Option<
    TransportText,
> {
    match (command, texts_of(args), entries_of(env)) {
        (Json::Str(command), Some(args), Some(env)) => match cwd {
            Json::Null => Some(TransportText::Stdio { command, args, env, cwd: None }),
            Json::Str(path) => Some(
                TransportText::Stdio {
                    command,
                    args,
                    env,
                    cwd: Some(vstd::utf8::encode_utf8(path)),
                },
            ),
            _ => None,
        },
        _ => None,
    }
}

/// The service that the fields of a transport describe.
pub open spec fn http_of(url: Json, headers: Json) -> Option<TransportText> {
    match (url, entries_of(headers)) {
        (Json::Str(url), Some(headers)) => Some(TransportText::Http { url, headers }),
        _ => None,
    }
}

/// The transport that a value stands for: an object with a `kind`, of which
/// other members are left aside, or an array that starts with the kind. Only an
/// object can leave the working directory out.
pub open spec fn transport_of(value: Json) -> Option<TransportText> {
    match value {
        Json::Object(members) => if !members.dom().contains("kind"@) {
            None
        } else if members["kind"@] == Json::Str("Stdio"@) {
            if members.dom().contains("command"@) && members.dom().contains("args"@)
                && members.dom().contains("env"@) {
                stdio_of(
                    members["command"@],
                    members["args"@],
                    members["env"@],
                    if members.dom().contains("cwd"@) {
                        members["cwd"@]
                    } else {
                        Json::Null
                    },
                )
            } else {
                None
            }
        } else if members["kind"@] == Json::Str("Http"@) {
            if members.dom().contains("url"@) && members.dom().contains("headers"@) {
                http_of(members["url"@], members["headers"@])
            } else {
                None
            }
        } else {
            None
        },
        Json::Array(items) => if items.len() == 5 && items[0] == Json::Str("Stdio"@) {
            stdio_of(items[1], items[2], items[3], items[4])
        } else if items.len() == 3 && items[0] == Json::Str("Http"@) {
            http_of(items[1], items[2])
        } else {
            None
        },
        _ => None,
    }
}

pub open spec fn filter_names() -> Seq<Seq<char>> {
    seq!["allowed_tools"@, "disabled_tools"@]
}

pub open spec fn server_names() -> Seq<Seq<char>> {
    seq!["name"@, "id"@, "config_hash"@, "transport"@, "filter"@]
}

pub open spec fn envelope_names() -> Seq<Seq<char>> {
    seq![
        "version"@,
        "runtime_parent"@,
        "server"@,
        "parent_environment"@,
        "idle_timeout_millis"@,
        "startup_timeout_millis"@,
    ]
}

/// The allowed and the disabled tools of a filter.
pub open spec fn filter_of(value: Json) -> Option<(Seq<Seq<char>>, Seq<Seq<char>>)> {
    match json::field_values(value, filter_names()) {
        Some(fields) => match (texts_of(fields[0]), texts_of(fields[1])) {
            (Some(allowed), Some(disabled)) => Some((allowed, disabled)),
            _ => None,
        },
        None => None,
    }
}

/// The server that a value stands for.
pub open spec fn server_of(value: Json) -> Option<ServerText> {
    match json::field_values(value, server_names()) {
        Some(fields) => match (fields[0], fields[1], fields[2]) {
            (Json::Str(name), Json::Str(id), Json::Str(config_hash)) => match (
                transport_of(fields[3]),
                filter_of(fields[4]),
            ) {
                (Some(transport), Some((allowed_tools, disabled_tools))) => Some(
                    ServerText {
                        name,
                        id,
                        config_hash,
                        transport,
                        allowed_tools,
                        disabled_tools,
                    },
                ),
                _ => None,
            },
            _ => None,
        },
        None => None,
    }
}

/// The bootstrap that a value stands for.
pub open spec fn envelope_of(value: Json) -> Option<EnvelopeText> {
    match json::field_values(value, envelope_names()) {
        Some(fields) => match (
            fields[0],
            fields[1],
            server_of(fields[2]),
            entries_of(fields[3]),
            fields[4],
            fields[5],
        ) {
            (
                Json::Unsigned(version),
                Json::Str(parent),
                Some(server),
                Some(parent_environment),
                Json::Unsigned(idle_timeout_millis),
                Json::Unsigned(startup_timeout_millis),
            ) => if version <= u8::MAX {
                Some(
                    EnvelopeText {
                        version: version as u8,
                        runtime_parent: vstd::utf8::encode_utf8(parent),
                        server,
                        parent_environment,
                        idle_timeout_millis,
                        startup_timeout_millis,
                    },
                )
            } else {
                None
            },
            _ => None,
        },
        None => None,
    }
}

/// The bootstrap that JSON text stands for. Where an object of the text names a
/// member twice, the last one counts.
pub open spec fn decoded(bytes: Seq<u8>) -> Option<EnvelopeText> {
    match json::json_document(bytes) {
        Some(value) => envelope_of(value),
        None => None,
    }
}

/// The named strings of a transport stand in the order of their names, and its
/// working directory is text.
pub open spec fn plain_transport(transport: TransportText) -> bool {
    match transport {
        TransportText::Stdio { command, args, env, cwd } => bootstrap::ordered(env) && (cwd matches
            Some(path) ==> vstd::utf8::valid_utf8(path)),
        TransportText::Http { url, headers } => bootstrap::ordered(headers),
    }
}

/// An object reads back where its members do.
proof fn lemma_object_reads_back(members: Seq<(Seq<char>, Json)>, depth: nat)
    requires
        json::distinct_members(members),
        depth > 0,
        forall|i: int|
            0 <= i < members.len() ==> json::reads_back(
                (#[trigger] members[i]).1,
                (depth - 1) as nat,
            ),
    ensures
        json::reads_back(Json::Object(json::member_map(members)), depth),
{
    json::lemma_member_map(members);
    let map = json::member_map(members);
    assert forall|name: Seq<char>| #[trigger] map.dom().contains(name) implies json::reads_back(
        map[name],
        (depth - 1) as nat,
    ) by {
        let i = choose|i: int| 0 <= i < members.len() && (#[trigger] members[i]).0 == name;
        assert(map[members[i].0] == members[i].1);
    }
}

proof fn lemma_texts(list: Seq<Seq<char>>, depth: nat)
    requires
        depth > 0,
    ensures
        json::reads_back(texts_json(list), depth),
        texts_of(texts_json(list)) == Some(list),
{
    reveal_with_fuel(json::reads_back, 2);
    let items = texts_json(list)->Array_0;
    assert(items.map_values(|item: Json| item->Str_0) =~= list);
}

proof fn lemma_entries_are_texts(pairs: Seq<(Seq<char>, Seq<char>)>)
    ensures
        forall|name: Seq<char>| #[trigger]
            json::member_map(entry_members(pairs)).dom().contains(name) ==> json::member_map(
                entry_members(pairs),
            )[name] is Str,
    decreases pairs.len(),
{
    if pairs.len() > 0 {
        lemma_entries_are_texts(pairs.drop_last());
        assert(entry_members(pairs).drop_last() =~= entry_members(pairs.drop_last()));
    }
}

proof fn lemma_entries(pairs: Seq<(Seq<char>, Seq<char>)>, depth: nat)
    requires
        depth > 0,
    ensures
        json::reads_back(entries_json(pairs), depth),
        bootstrap::ordered(pairs) ==> entries_of(entries_json(pairs)) == Some(pairs),
{
    reveal_with_fuel(json::reads_back, 2);
    lemma_entries_are_texts(pairs);
    let named = entry_members(pairs);
    let members = json::member_map(named);
    if bootstrap::ordered(pairs) {
        bootstrap::lemma_ordered_is_distinct(pairs);
        assert forall|i: int, j: int| 0 <= i < j < named.len() implies (#[trigger] named[i]).0 != (
        #[trigger] named[j]).0 by {
            assert(pairs[i].0 != pairs[j].0);
        }
        json::lemma_member_map(named);
        let names = pairs.map_values(|pair: (Seq<char>, Seq<char>)| pair.0);
        assert forall|i: int, j: int|
            #![trigger names[i], names[j]]
            0 <= i < j < names.len() implies text::text_before(names[i], names[j]) by {
            assert(text::text_before(pairs[i].0, pairs[j].0));
        }
        assert forall|name: Seq<char>| #[trigger] names.contains(name) <==> members.dom().contains(
            name,
        ) by {
            if names.contains(name) {
                let i = choose|i: int| 0 <= i < names.len() && names[i] == name;
                assert(members.dom().contains(named[i].0));
            }
            if members.dom().contains(name) {
                let i = choose|i: int| 0 <= i < named.len() && (#[trigger] named[i]).0 == name;
                assert(names[i] == name);
            }
        }
        assert(order::lists(names, members.dom()));
        order::ascending_lists_are_unique(
            names,
            order::ascending_list(members.dom()),
            members.dom(),
        );
        assert forall|i: int| 0 <= i < pairs.len() implies #[trigger] listed(members)[i]
            == pairs[i] by {
            assert(members[named[i].0] == named[i].1);
        }
        assert(listed(members) =~= pairs);
    }
}

proof fn lemma_stdio(
    command: Seq<char>,
    args: Seq<Seq<char>>,
    env: Seq<(Seq<char>, Seq<char>)>,
    cwd: Option<Seq<u8>>,
    depth: nat,
)
    requires
        depth >= 2,
    ensures
        ({
            let transport = TransportText::Stdio { command, args, env, cwd };
            &&& json::distinct_members(transport_members(transport))
            &&& json::reads_back(transport_json(transport), depth)
            &&& plain_transport(transport) ==> transport_of(transport_json(transport)) == Some(
                transport,
            )
        }),
{
    let transport = TransportText::Stdio { command, args, env, cwd };
    reveal_strlit("kind");
    reveal_strlit("command");
    reveal_strlit("args");
    reveal_strlit("env");
    reveal_strlit("cwd");
    assert("kind"@.len() == 4 && "command"@.len() == 7 && "args"@.len() == 4);
    assert("env"@.len() == 3 && "cwd"@.len() == 3);
    assert("kind"@[0] == 'k' && "args"@[0] == 'a' && "env"@[0] == 'e' && "cwd"@[0] == 'c');
    let named = transport_members(transport);
    lemma_texts(args, (depth - 1) as nat);
    lemma_entries(env, (depth - 1) as nat);
    lemma_object_reads_back(named, depth);
    json::lemma_member_map(named);
    let members = json::member_map(named);
    assert(members[named[0].0] == named[0].1);
    assert(members[named[1].0] == named[1].1);
    assert(members[named[2].0] == named[2].1);
    assert(members[named[3].0] == named[3].1);
    assert(members[named[4].0] == named[4].1);
    if let Some(path) = cwd {
        if vstd::utf8::valid_utf8(path) {
            vstd::utf8::decode_utf8_encode_utf8(path);
        }
    }
}

proof fn lemma_http(url: Seq<char>, headers: Seq<(Seq<char>, Seq<char>)>, depth: nat)
    requires
        depth >= 2,
    ensures
        ({
            let transport = TransportText::Http { url, headers };
            &&& json::distinct_members(transport_members(transport))
            &&& json::reads_back(transport_json(transport), depth)
            &&& plain_transport(transport) ==> transport_of(transport_json(transport)) == Some(
                transport,
            )
        }),
{
    let transport = TransportText::Http { url, headers };
    reveal_strlit("kind");
    reveal_strlit("url");
    reveal_strlit("headers");
    reveal_strlit("Stdio");
    reveal_strlit("Http");
    assert("kind"@.len() == 4 && "url"@.len() == 3 && "headers"@.len() == 7);
    assert("Stdio"@.len() == 5 && "Http"@.len() == 4);
    let named = transport_members(transport);
    lemma_entries(headers, (depth - 1) as nat);
    lemma_object_reads_back(named, depth);
    json::lemma_member_map(named);
    let members = json::member_map(named);
    assert(members[named[0].0] == named[0].1);
    assert(members[named[1].0] == named[1].1);
    assert(members[named[2].0] == named[2].1);
}

proof fn lemma_transport(transport: TransportText, depth: nat)
    requires
        depth >= 2,
    ensures
        json::reads_back(transport_json(transport), depth),
        plain_transport(transport) ==> transport_of(transport_json(transport)) == Some(transport),
{
    match transport {
        TransportText::Stdio { command, args, env, cwd } => lemma_stdio(
            command,
            args,
            env,
            cwd,
            depth,
        ),
        TransportText::Http { url, headers } => lemma_http(url, headers, depth),
    }
}

proof fn lemma_filter(allowed: Seq<Seq<char>>, disabled: Seq<Seq<char>>, depth: nat)
    requires
        depth >= 2,
    ensures
        json::reads_back(filter_json(allowed, disabled), depth),
        filter_of(filter_json(allowed, disabled)) == Some((allowed, disabled)),
{
    reveal_strlit("allowed_tools");
    reveal_strlit("disabled_tools");
    assert("allowed_tools"@.len() == 13 && "disabled_tools"@.len() == 14);
    let named = filter_members(allowed, disabled);
    lemma_texts(allowed, (depth - 1) as nat);
    lemma_texts(disabled, (depth - 1) as nat);
    lemma_object_reads_back(named, depth);
    json::lemma_fields(named, filter_names());
}

proof fn lemma_server(server: ServerText, depth: nat)
    requires
        depth >= 3,
    ensures
        json::reads_back(server_json(server), depth),
        plain_transport(server.transport) ==> server_of(server_json(server)) == Some(server),
{
    reveal_strlit("name");
    reveal_strlit("id");
    reveal_strlit("config_hash");
    reveal_strlit("transport");
    reveal_strlit("filter");
    assert("name"@.len() == 4 && "id"@.len() == 2 && "config_hash"@.len() == 11);
    assert("transport"@.len() == 9 && "filter"@.len() == 6);
    let named = server_members(server);
    lemma_transport(server.transport, (depth - 1) as nat);
    lemma_filter(server.allowed_tools, server.disabled_tools, (depth - 1) as nat);
    lemma_object_reads_back(named, depth);
    json::lemma_fields(named, server_names());
}

proof fn lemma_envelope(envelope: EnvelopeText)
    ensures
        json::distinct_members(envelope_members(envelope)),
        json::reads_back(envelope_json(envelope), json::MAX_DEPTH as nat),
        textual_paths(envelope) && ordered_entries(envelope) ==> envelope_of(
            envelope_json(envelope),
        ) == Some(envelope),
{
    reveal_strlit("version");
    reveal_strlit("runtime_parent");
    reveal_strlit("server");
    reveal_strlit("parent_environment");
    reveal_strlit("idle_timeout_millis");
    reveal_strlit("startup_timeout_millis");
    assert("version"@.len() == 7 && "runtime_parent"@.len() == 14 && "server"@.len() == 6);
    assert("parent_environment"@.len() == 18 && "idle_timeout_millis"@.len() == 19);
    assert("startup_timeout_millis"@.len() == 22);
    let named = envelope_members(envelope);
    let left = (json::MAX_DEPTH - 1) as nat;
    lemma_server(envelope.server, left);
    lemma_entries(envelope.parent_environment, left);
    lemma_object_reads_back(named, json::MAX_DEPTH as nat);
    json::lemma_fields(named, envelope_names());
    if vstd::utf8::valid_utf8(envelope.runtime_parent) {
        vstd::utf8::decode_utf8_encode_utf8(envelope.runtime_parent);
    }
}

/// A bootstrap survives its transfer: the document that a parent writes down is
/// read as the same bootstrap.
pub proof fn bootstraps_survive_their_document(envelope: EnvelopeText)
    requires
        textual_paths(envelope),
        ordered_entries(envelope),
    ensures
        json::distinct_members(envelope_members(envelope)),
        envelope_of(envelope_json(envelope)) == Some(envelope),
{
    lemma_envelope(envelope);
}

fn text_list(list: &Vec<String>) -> (r: JsonValue)
    ensures
        r@ == texts_json(text::texts(list@)),
{
    let ghost all = text::texts(list@);
    let mut items: Vec<JsonValue> = Vec::new();
    let mut index: usize = 0;
    while index < list.len()
        invariant
            index <= list.len(),
            all == text::texts(list@),
            json::contents(items@) == texts_json(all.take(index as int))->Array_0,
        decreases list.len() - index,
    {
        let ghost before = items@;
        let item = JsonValue::text(list[index].as_str());
        let ghost added = item@;
        items.push(item);
        assert(json::contents(items@) =~= json::contents(before).push(added));
        assert(texts_json(all.take(index + 1))->Array_0 =~= texts_json(
            all.take(index as int),
        )->Array_0.push(added));
        index += 1;
    }
    assert(all.take(index as int) =~= all);
    JsonValue::list(items)
}

fn entry_object(list: &Vec<(String, String)>) -> (r: JsonValue)
    ensures
        r@ == entries_json(config::entry_texts(list@)),
{
    let ghost all = config::entry_texts(list@);
    let mut object = JsonObject::new();
    let mut index: usize = 0;
    assert(entry_members(all.take(0)) =~= Seq::<(Seq<char>, Json)>::empty());
    while index < list.len()
        invariant
            index <= list.len(),
            all == config::entry_texts(list@),
            object@ == json::member_map(entry_members(all.take(index as int))),
        decreases list.len() - index,
    {
        let entry = &list[index];
        assert(all[index as int] == (entry.0@, entry.1@));
        object.insert(entry.0.as_str(), JsonValue::text(entry.1.as_str()));
        assert(entry_members(all.take(index + 1)).drop_last() =~= entry_members(
            all.take(index as int),
        ));
        assert(entry_members(all.take(index + 1)).last() == (entry.0@, Json::Str(entry.1@)));
        index += 1;
    }
    assert(all.take(index as int) =~= all);
    JsonValue::object(object)
}

/// A path as text, if it is text.
fn path_value(path: &Vec<u8>) -> (r: Option<JsonValue>)
    ensures
        r is Some <==> vstd::utf8::valid_utf8(path@),
        r matches Some(value) ==> value@ == path_json(path@),
{
    if !is_utf8(path.as_slice()) {
        return None;
    }
    let shown = redact::lossy(path.as_slice());
    proof {
        vstd::utf8::encode_utf8_decode_utf8(shown@);
    }
    Some(JsonValue::text(shown.as_str()))
}

fn transport_object(transport: &WorkerTransport) -> (r: Option<JsonValue>)
    ensures
        r is Some <==> textual_directory(transport@),
        r matches Some(value) ==> value@ == transport_json(transport@),
{
    let ghost named = transport_members(transport@);
    let mut object = JsonObject::new();
    match transport {
        WorkerTransport::Stdio { command, args, env, cwd } => {
            let directory = match cwd {
                Some(path) => match path_value(path) {
                    Some(directory) => directory,
                    None => return None,
                },
                None => JsonValue::null(),
            };
            object.insert("kind", JsonValue::text("Stdio"));
            object.insert("command", JsonValue::text(command.as_str()));
            object.insert("args", text_list(args));
            object.insert("env", entry_object(env));
            object.insert("cwd", directory);
            proof {
                lemma_last(named);
                lemma_last(named.drop_last());
                lemma_last(named.drop_last().drop_last());
                lemma_last(named.drop_last().drop_last().drop_last());
                lemma_last(named.drop_last().drop_last().drop_last().drop_last());
            }
        },
        WorkerTransport::Http { url, headers } => {
            object.insert("kind", JsonValue::text("Http"));
            object.insert("url", JsonValue::text(url.as_str()));
            object.insert("headers", entry_object(headers));
            proof {
                lemma_last(named);
                lemma_last(named.drop_last());
                lemma_last(named.drop_last().drop_last());
            }
        },
    }
    Some(JsonValue::object(object))
}

proof fn lemma_last(members: Seq<(Seq<char>, Json)>)
    requires
        members.len() > 0,
    ensures
        json::member_map(members) == json::member_map(members.drop_last()).insert(
            members.last().0,
            members.last().1,
        ),
        members.len() == 1 ==> json::member_map(members.drop_last()) == Map::<
            Seq<char>,
            Json,
        >::empty(),
{
}

fn filter_object(filter: &WorkerFilter) -> (r: JsonValue)
    ensures
        r@ == filter_json(
            text::texts(filter.allowed_tools@),
            text::texts(filter.disabled_tools@),
        ),
{
    let mut object = JsonObject::new();
    object.insert("allowed_tools", text_list(&filter.allowed_tools));
    object.insert("disabled_tools", text_list(&filter.disabled_tools));
    proof {
        let named = filter_members(
            text::texts(filter.allowed_tools@),
            text::texts(filter.disabled_tools@),
        );
        lemma_last(named);
        lemma_last(named.drop_last());
    }
    JsonValue::object(object)
}

fn server_object(server: &WorkerServer) -> (r: Option<JsonValue>)
    ensures
        r is Some <==> textual_directory(server@.transport),
        r matches Some(value) ==> value@ == server_json(server@),
{
    let transport = match transport_object(&server.transport) {
        Some(transport) => transport,
        None => return None,
    };
    let mut object = JsonObject::new();
    object.insert("name", JsonValue::text(server.name.as_str()));
    object.insert("id", JsonValue::text(server.id.as_str()));
    object.insert("config_hash", JsonValue::text(server.config_hash.as_str()));
    object.insert("transport", transport);
    object.insert("filter", filter_object(&server.filter));
    proof {
        let named = server_members(server@);
        lemma_last(named);
        lemma_last(named.drop_last());
        lemma_last(named.drop_last().drop_last());
        lemma_last(named.drop_last().drop_last().drop_last());
        lemma_last(named.drop_last().drop_last().drop_last().drop_last());
    }
    Some(JsonValue::object(object))
}

fn unsigned(number: u64) -> (r: JsonValue)
    ensures
        r@ == Json::Unsigned(number),
{
    let value = JsonValue::Unsigned(number);
    proof {
        json::lemma_json_of(value);
    }
    value
}

impl WorkerBootstrapEnvelope {
    /// The JSON text in which a parent hands a bootstrap over. It exists if
    /// every path is text, and reading it gives the bootstrap back.
    pub fn to_json(&self) -> (r: Result<Vec<u8>, DaemonSpawnError>)
        ensures
            if textual_paths(envelope_text(*self)) {
                r matches Ok(bytes) && {
                    &&& bytes@ == json::json_object_text(envelope_members(envelope_text(*self)))
                    &&& json::json_document(bytes@) == Some(envelope_json(envelope_text(*self)))
                    &&& ordered_entries(envelope_text(*self)) ==> decoded(bytes@) == Some(
                        envelope_text(*self),
                    )
                }
            } else {
                r matches Err(failure) && failure == DaemonSpawnError::SerializeBootstrap
            },
    {
        let runtime_parent = match path_value(&self.runtime_parent) {
            Some(runtime_parent) => runtime_parent,
            None => return Err(DaemonSpawnError::SerializeBootstrap),
        };
        let server = match server_object(&self.server) {
            Some(server) => server,
            None => return Err(DaemonSpawnError::SerializeBootstrap),
        };
        let mut members: Vec<(String, JsonValue)> = Vec::new();
        members.push(("version".to_owned(), unsigned(self.version as u64)));
        members.push(("runtime_parent".to_owned(), runtime_parent));
        members.push(("server".to_owned(), server));
        members.push(("parent_environment".to_owned(), entry_object(&self.parent_environment)));
        members.push(("idle_timeout_millis".to_owned(), unsigned(self.idle_timeout_millis)));
        members.push(("startup_timeout_millis".to_owned(), unsigned(self.startup_timeout_millis)));
        proof {
            lemma_envelope(envelope_text(*self));
            assert(json::members_of(members@) =~= envelope_members(envelope_text(*self)));
        }
        Ok(object_text(&members))
    }
}

fn read_text(value: &JsonValue) -> (r: Option<String>)
    ensures
        match value@ {
            Json::Str(content) => r matches Some(found) && found@ == content,
            _ => r is None,
        },
{
    match value.as_str() {
        Some(found) => Some(found.to_owned()),
        None => None,
    }
}

fn read_texts(value: &JsonValue) -> (r: Option<Vec<String>>)
    ensures
        match texts_of(value@) {
            Some(list) => r matches Some(found) && text::texts(found@) == list,
            None => r is None,
        },
{
    proof {
        json::lemma_json_of(*value);
    }
    let items = match value {
        JsonValue::Array(items) => items,
        _ => return None,
    };
    let ghost all = json::contents(items@);
    let mut found: Vec<String> = Vec::new();
    let mut index: usize = 0;
    while index < items.len()
        invariant
            index <= items.len(),
            all == json::contents(items@),
            value@ == Json::Array(all),
            forall|i: int| 0 <= i < index ==> #[trigger] all[i] is Str,
            text::texts(found@) == all.take(index as int).map_values(
                |item: Json| item->Str_0,
            ),
        decreases items.len() - index,
    {
        assert(all[index as int] == items@[index as int]@);
        match read_text(&items[index]) {
            Some(entry) => {
                let ghost before = found@;
                let ghost added = entry@;
                found.push(entry);
                assert(text::texts(found@) =~= text::texts(before).push(added));
                assert(all.take(index + 1).map_values(|item: Json| item->Str_0) =~= all.take(
                    index as int,
                ).map_values(|item: Json| item->Str_0).push(added));
            },
            None => return None,
        }
        index += 1;
    }
    assert(all.take(index as int) =~= all);
    Some(found)
}

fn read_entries(value: &JsonValue) -> (r: Option<Vec<(String, String)>>)
    ensures
        match entries_of(value@) {
            Some(list) => r matches Some(found) && config::entry_texts(found@) == list,
            None => r is None,
        },
{
    proof {
        json::lemma_json_of(*value);
    }
    let object = match value {
        JsonValue::Object(object) => object,
        _ => return None,
    };
    let names = object.sorted_names();
    let ghost all = text::texts(names@);
    let mut found: Vec<(String, String)> = Vec::new();
    let mut index: usize = 0;
    while index < names.len()
        invariant
            index <= names.len(),
            all == text::texts(names@),
            all == order::ascending_list(object@.dom()),
            order::lists(all, object@.dom()),
            value@ == Json::Object(object@),
            forall|i: int| 0 <= i < index ==> object@[#[trigger] all[i]] is Str,
            config::entry_texts(found@) == all.take(index as int).map_values(
                |name: Seq<char>| (name, object@[name]->Str_0),
            ),
        decreases names.len() - index,
    {
        let ghost name = all[index as int];
        assert(name == names@[index as int]@);
        assert(all.contains(name));
        let content = match object.get(names[index].as_str()) {
            Some(content) => content,
            None => return None,
        };
        match read_text(content) {
            Some(entry) => {
                let ghost before = found@;
                let ghost added = (name, entry@);
                found.push((names[index].as_str().to_owned(), entry));
                assert(config::entry_texts(found@) =~= config::entry_texts(before).push(added));
                assert(all.take(index + 1).map_values(
                    |name: Seq<char>| (name, object@[name]->Str_0),
                ) =~= all.take(index as int).map_values(
                    |name: Seq<char>| (name, object@[name]->Str_0),
                ).push(added));
            },
            None => {
                assert(object@.dom().contains(name));
                return None;
            },
        }
        index += 1;
    }
    proof {
        assert(all.take(index as int) =~= all);
        assert forall|name: Seq<char>| #[trigger] object@.dom().contains(name) implies object@[name]
            is Str by {
            assert(all.contains(name));
            let i = choose|i: int| 0 <= i < all.len() && all[i] == name;
            assert(object@[all[i]] is Str);
        }
        assert(config::entry_texts(found@) =~= listed(object@));
    }
    Some(found)
}

fn read_stdio(command: &JsonValue, args: &JsonValue, env: &JsonValue, cwd: Option<&JsonValue>) -> (r:
    Option<WorkerTransport>)
    ensures
        match stdio_of(
            command@,
            args@,
            env@,
            match cwd {
                Some(directory) => directory@,
                None => Json::Null,
            },
        ) {
            Some(transport) => r matches Some(found) && found@ == transport,
            None => r is None,
        },
{
    let (command, args, env) = match (read_text(command), read_texts(args), read_entries(env)) {
        (Some(command), Some(args), Some(env)) => (command, args, env),
        _ => return None,
    };
    let cwd = match cwd {
        Some(directory) => {
            proof {
                json::lemma_json_of(*directory);
            }
            match directory {
                JsonValue::Null => None,
                _ => match directory.as_str() {
                    Some(path) => Some(vstd::slice::slice_to_vec(path.as_bytes())),
                    None => return None,
                },
            }
        },
        None => None,
    };
    Some(WorkerTransport::Stdio { command, args, env, cwd })
}

fn read_http(url: &JsonValue, headers: &JsonValue) -> (r: Option<WorkerTransport>)
    ensures
        match http_of(url@, headers@) {
            Some(transport) => r matches Some(found) && found@ == transport,
            None => r is None,
        },
{
    match (read_text(url), read_entries(headers)) {
        (Some(url), Some(headers)) => Some(WorkerTransport::Http { url, headers }),
        _ => None,
    }
}

/// Whether a value is a given string.
fn is_text(value: &JsonValue, expected: &str) -> (r: bool)
    ensures
        r == (value@ == Json::Str(expected@)),
{
    match value.as_str() {
        Some(found) => str_equal(found, expected),
        None => false,
    }
}

fn read_transport(value: &JsonValue) -> (r: Option<WorkerTransport>)
    ensures
        match transport_of(value@) {
            Some(transport) => r matches Some(found) && found@ == transport,
            None => r is None,
        },
{
    proof {
        json::lemma_json_of(*value);
        reveal_strlit("Stdio");
        reveal_strlit("Http");
        assert("Stdio"@.len() == 5 && "Http"@.len() == 4);
    }
    match value {
        JsonValue::Object(object) => {
            let kind = match object.get("kind") {
                Some(kind) => kind,
                None => return None,
            };
            if is_text(kind, "Stdio") {
                match (object.get("command"), object.get("args"), object.get("env")) {
                    (Some(command), Some(args), Some(env)) => read_stdio(
                        command,
                        args,
                        env,
                        object.get("cwd"),
                    ),
                    _ => None,
                }
            } else if is_text(kind, "Http") {
                match (object.get("url"), object.get("headers")) {
                    (Some(url), Some(headers)) => read_http(url, headers),
                    _ => None,
                }
            } else {
                None
            }
        },
        JsonValue::Array(items) => {
            assert(items@.len() == json::contents(items@).len());
            assert forall|i: int| 0 <= i < items@.len() implies #[trigger] items@[i]@
                == json::contents(items@)[i] by {}
            if items.len() == 5 && is_text(&items[0], "Stdio") {
                read_stdio(&items[1], &items[2], &items[3], Some(&items[4]))
            } else if items.len() == 3 && is_text(&items[0], "Http") {
                read_http(&items[1], &items[2])
            } else {
                None
            }
        },
        _ => None,
    }
}

fn read_filter(value: &JsonValue) -> (r: Option<WorkerFilter>)
    ensures
        match filter_of(value@) {
            Some((allowed, disabled)) => r matches Some(found) && text::texts(found.allowed_tools@)
                == allowed && text::texts(found.disabled_tools@) == disabled,
            None => r is None,
        },
{
    let names: [&str; 2] = ["allowed_tools", "disabled_tools"];
    assert(text::slices(names@) =~= filter_names());
    let fields = match value.fields(&names) {
        Some(fields) => fields,
        None => return None,
    };
    assert forall|i: int| 0 <= i < fields@.len() implies #[trigger] fields@[i]@ == json::borrowed(
        fields@,
    )[i] by {}
    match (read_texts(fields[0]), read_texts(fields[1])) {
        (Some(allowed_tools), Some(disabled_tools)) => Some(
            WorkerFilter { allowed_tools, disabled_tools },
        ),
        _ => None,
    }
}

fn read_server(value: &JsonValue) -> (r: Option<WorkerServer>)
    ensures
        match server_of(value@) {
            Some(server) => r matches Some(found) && found@ == server,
            None => r is None,
        },
{
    let names: [&str; 5] = ["name", "id", "config_hash", "transport", "filter"];
    assert(text::slices(names@) =~= server_names());
    let fields = match value.fields(&names) {
        Some(fields) => fields,
        None => return None,
    };
    assert forall|i: int| 0 <= i < fields@.len() implies #[trigger] fields@[i]@ == json::borrowed(
        fields@,
    )[i] by {}
    let (name, id, config_hash) = match (
        read_text(fields[0]),
        read_text(fields[1]),
        read_text(fields[2]),
    ) {
        (Some(name), Some(id), Some(config_hash)) => (name, id, config_hash),
        _ => return None,
    };
    match (read_transport(fields[3]), read_filter(fields[4])) {
        (Some(transport), Some(filter)) => Some(
            WorkerServer { name, id, config_hash, transport, filter },
        ),
        _ => None,
    }
}

fn read_envelope(value: &JsonValue) -> (r: Option<WorkerBootstrapEnvelope>)
    ensures
        match envelope_of(value@) {
            Some(envelope) => r matches Some(found) && envelope_text(found) == envelope
                && found.startup_fault is None,
            None => r is None,
        },
{
    let names: [&str; 6] = [
        "version",
        "runtime_parent",
        "server",
        "parent_environment",
        "idle_timeout_millis",
        "startup_timeout_millis",
    ];
    assert(text::slices(names@) =~= envelope_names());
    let fields = match value.fields(&names) {
        Some(fields) => fields,
        None => return None,
    };
    assert forall|i: int| 0 <= i < fields@.len() implies #[trigger] fields@[i]@ == json::borrowed(
        fields@,
    )[i] by {}
    let version = match fields[0].as_unsigned() {
        Some(version) => version,
        None => return None,
    };
    let runtime_parent = match fields[1].as_str() {
        Some(path) => vstd::slice::slice_to_vec(path.as_bytes()),
        None => return None,
    };
    let (server, parent_environment) = match (read_server(fields[2]), read_entries(fields[3])) {
        (Some(server), Some(parent_environment)) => (server, parent_environment),
        _ => return None,
    };
    let (idle_timeout_millis, startup_timeout_millis) = match (
        fields[4].as_unsigned(),
        fields[5].as_unsigned(),
    ) {
        (Some(idle), Some(startup)) => (idle, startup),
        _ => return None,
    };
    if version > u8::MAX as u64 {
        return None;
    }
    Some(
        WorkerBootstrapEnvelope {
            version: version as u8,
            runtime_parent,
            server,
            parent_environment,
            idle_timeout_millis,
            startup_timeout_millis,
            startup_fault: None,
        },
    )
}

impl WorkerBootstrapEnvelope {
    /// Reads the bootstrap that a worker was handed. A parsed document does not
    /// show that a name was given twice, so `named_once` says whether no field
    /// was.
    pub fn from_json(encoded: &[u8], named_once: bool) -> (r: Result<Self, WorkerBootstrapError>)
        ensures
            if 0 < encoded@.len() <= WORKER_BOOTSTRAP_MAX_BYTES && named_once && decoded(
                encoded@,
            ) is Some {
                r matches Ok(envelope) && decoded(encoded@) == Some(envelope_text(envelope))
                    && envelope.startup_fault is None
            } else {
                r matches Err(failure) && failure == WorkerBootstrapError::InvalidInput
            },
    {
        if !accepts_bootstrap_length(encoded.len()) || !named_once {
            return Err(WorkerBootstrapError::InvalidInput);
        }
        match parse_json(encoded) {
            Some(value) => match read_envelope(&value) {
                Some(envelope) => Ok(envelope),
                None => Err(WorkerBootstrapError::InvalidInput),
            },
            None => Err(WorkerBootstrapError::InvalidInput),
        }
    }
}

/// A list of strings is an array of the same strings, and only such an array is
/// read as one.
pub proof fn lists_are_read_item_by_item(list: Seq<Seq<char>>, items: Seq<Json>, i: int)
    ensures
        texts_json(list) matches Json::Array(written) && written.len() == list.len() && (0 <= i
            < list.len() ==> written[i] == Json::Str(list[i])),
        texts_of(Json::Array(items)) is Some <==> forall|k: int|
            0 <= k < items.len() ==> #[trigger] items[k] is Str,
        texts_of(Json::Array(items)) matches Some(read) ==> read.len() == items.len() && (0 <= i
            < items.len() ==> items[i] == Json::Str(read[i])),
{
}

/// An object of strings is read as all of its members in the order of their
/// names, and an object with any other member is not read.
pub proof fn entries_are_read_by_name(
    members: Map<Seq<char>, Json>,
    name: Seq<char>,
    i: int,
    j: int,
)
    requires
        members.dom().finite(),
    ensures
        entries_of(Json::Object(members)) is Some <==> forall|key: Seq<char>| #[trigger]
            members.dom().contains(key) ==> members[key] is Str,
        entries_of(Json::Object(members)) matches Some(read) ==> {
            &&& 0 <= i < read.len() ==> members.dom().contains(read[i].0) && members[read[i].0]
                == Json::Str(read[i].1)
            &&& 0 <= i < j < read.len() ==> text::text_before(read[i].0, read[j].0)
            &&& members.dom().contains(name) ==> exists|k: int|
                0 <= k < read.len() && (#[trigger] read[k]).0 == name
        },
{
    if let Some(read) = entries_of(Json::Object(members)) {
        order::finite_sets_have_an_ascending_list(members.dom());
        let names = order::ascending_list(members.dom());
        assert(read.len() == names.len());
        assert forall|k: int| 0 <= k < read.len() implies #[trigger] read[k] == (
            names[k],
            members[names[k]]->Str_0,
        ) by {}
        if 0 <= i < read.len() {
            assert(names.contains(names[i]));
            assert(members.dom().contains(names[i]));
        }
        if members.dom().contains(name) {
            assert(names.contains(name));
            let k = choose|k: int| 0 <= k < names.len() && names[k] == name;
            assert(read[k].0 == name);
        }
    }
}

/// An object of kind `Stdio` is a program with a command, arguments, an
/// environment and perhaps a working directory; one of kind `Http` is a service
/// with a URL and headers; nothing else is a transport.
pub proof fn transports_are_read_by_kind(members: Map<Seq<char>, Json>)
    ensures
        ({
            let read = transport_of(Json::Object(members));
            let stdio = members.dom().contains("kind"@) && members["kind"@] == Json::Str("Stdio"@);
            let http = members.dom().contains("kind"@) && members["kind"@] == Json::Str("Http"@);
            &&& read is Some ==> stdio || http
            &&& stdio ==> (read is Some <==> {
                &&& members.dom().contains("command"@) && members["command"@] is Str
                &&& members.dom().contains("args"@) && texts_of(members["args"@]) is Some
                &&& members.dom().contains("env"@) && entries_of(members["env"@]) is Some
                &&& members.dom().contains("cwd"@) ==> members["cwd"@] is Null || members["cwd"@]
                    is Str
            })
            &&& stdio ==> (read matches Some(transport) ==> {
                &&& transport matches TransportText::Stdio { command, args, env, cwd }
                &&& members["command"@] == Json::Str(command)
                &&& texts_of(members["args"@]) == Some(args)
                &&& entries_of(members["env"@]) == Some(env)
                &&& members.dom().contains("cwd"@) && members["cwd"@] is Str ==> cwd == Some(
                    vstd::utf8::encode_utf8(members["cwd"@]->Str_0),
                )
                &&& !members.dom().contains("cwd"@) || members["cwd"@] is Null ==> cwd is None
            })
            &&& http ==> (read is Some <==> {
                &&& members.dom().contains("url"@) && members["url"@] is Str
                &&& members.dom().contains("headers"@) && entries_of(members["headers"@]) is Some
            })
            &&& http ==> (read matches Some(transport) ==> {
                &&& transport matches TransportText::Http { url, headers }
                &&& members["url"@] == Json::Str(url)
                &&& entries_of(members["headers"@]) == Some(headers)
            })
        }),
{
    reveal_strlit("Stdio");
    reveal_strlit("Http");
    assert("Stdio"@.len() == 5 && "Http"@.len() == 4);
}

/// A bootstrap is written if its paths are text, as an object with exactly these
/// members.
pub proof fn bootstraps_are_written_member_by_member(
    envelope: &WorkerBootstrapEnvelope,
    r: Result<Vec<u8>, DaemonSpawnError>,
)
    requires
        call_ensures(WorkerBootstrapEnvelope::to_json, (envelope,), r),
    ensures
        r is Ok <==> vstd::utf8::valid_utf8(envelope.runtime_parent@) && (
        envelope.server.transport matches WorkerTransport::Stdio { cwd, .. } ==> (cwd matches Some(
            path,
        ) ==> vstd::utf8::valid_utf8(path@))),
        r matches Err(failure) ==> failure is SerializeBootstrap,
        r matches Ok(written) ==> (json::json_document(written@) matches Some(value) && value
            matches Json::Object(members) && {
            &&& members.dom() == set![
                "version"@,
                "runtime_parent"@,
                "server"@,
                "parent_environment"@,
                "idle_timeout_millis"@,
                "startup_timeout_millis"@,
            ]
            &&& members["version"@] == Json::Unsigned(envelope.version as u64)
            &&& members["runtime_parent"@] == Json::Str(
                vstd::utf8::decode_utf8(envelope.runtime_parent@),
            )
            &&& members["idle_timeout_millis"@] == Json::Unsigned(envelope.idle_timeout_millis)
            &&& members["startup_timeout_millis"@] == Json::Unsigned(
                envelope.startup_timeout_millis,
            )
            &&& members["parent_environment"@] == entries_json(
                config::entry_texts(envelope.parent_environment@),
            )
            &&& members["server"@] == server_json(envelope.server@)
        }),
{
    if let Ok(written) = r {
        let content = envelope_text(*envelope);
        let named = envelope_members(content);
        lemma_envelope(content);
        json::lemma_member_map(named);
        let members = json::member_map(named);
        let names = set![
            "version"@,
            "runtime_parent"@,
            "server"@,
            "parent_environment"@,
            "idle_timeout_millis"@,
            "startup_timeout_millis"@,
        ];
        assert(named[0].0 == "version"@ && named[1].0 == "runtime_parent"@ && named[2].0
            == "server"@ && named[3].0 == "parent_environment"@ && named[4].0
            == "idle_timeout_millis"@ && named[5].0 == "startup_timeout_millis"@);
        assert forall|name: Seq<char>| #[trigger] members.dom().contains(name) <==> names.contains(
            name,
        ) by {
            if members.dom().contains(name) {
                let i = choose|i: int| 0 <= i < named.len() && (#[trigger] named[i]).0 == name;
                assert(i == 0 || i == 1 || i == 2 || i == 3 || i == 4 || i == 5);
            }
        }
        assert(members.dom() =~= names);
    }
}

/// A server is an object with exactly these members.
pub proof fn servers_are_written_member_by_member(server: ServerText)
    ensures
        server_json(server) matches Json::Object(members) && {
            &&& members.dom() == set!["name"@, "id"@, "config_hash"@, "transport"@, "filter"@]
            &&& members["name"@] == Json::Str(server.name)
            &&& members["id"@] == Json::Str(server.id)
            &&& members["config_hash"@] == Json::Str(server.config_hash)
            &&& members["transport"@] == transport_json(server.transport)
            &&& members["filter"@] matches Json::Object(patterns) && {
                &&& patterns.dom() == set!["allowed_tools"@, "disabled_tools"@]
                &&& patterns["allowed_tools"@] == texts_json(server.allowed_tools)
                &&& patterns["disabled_tools"@] == texts_json(server.disabled_tools)
            }
        },
{
    reveal_strlit("name");
    reveal_strlit("id");
    reveal_strlit("config_hash");
    reveal_strlit("transport");
    reveal_strlit("filter");
    reveal_strlit("allowed_tools");
    reveal_strlit("disabled_tools");
    assert("name"@.len() == 4 && "id"@.len() == 2 && "config_hash"@.len() == 11);
    assert("transport"@.len() == 9 && "filter"@.len() == 6);
    assert("allowed_tools"@.len() == 13 && "disabled_tools"@.len() == 14);
    reveal_with_fuel(json::member_map, 6);
    let named = server_members(server);
    assert(named.len() == 5);
    assert(named[0].0 == "name"@ && named[1].0 == "id"@ && named[2].0 == "config_hash"@
        && named[3].0 == "transport"@ && named[4].0 == "filter"@);
    assert(json::distinct_members(named));
    json::lemma_member_map(named);
    let members = json::member_map(named);
    let names = set!["name"@, "id"@, "config_hash"@, "transport"@, "filter"@];
    assert forall|name: Seq<char>| #[trigger] members.dom().contains(name) <==> names.contains(
        name,
    ) by {
        if members.dom().contains(name) {
            let i = choose|i: int| 0 <= i < named.len() && (#[trigger] named[i]).0 == name;
            assert(i == 0 || i == 1 || i == 2 || i == 3 || i == 4);
        }
    }
    assert(members.dom() =~= names);
    let listed = filter_members(server.allowed_tools, server.disabled_tools);
    assert(listed[0].0 == "allowed_tools"@ && listed[1].0 == "disabled_tools"@);
    assert(json::distinct_members(listed));
    json::lemma_member_map(listed);
    let patterns = json::member_map(listed);
    let pattern_names = set!["allowed_tools"@, "disabled_tools"@];
    assert forall|name: Seq<char>| #[trigger]
        patterns.dom().contains(name) <==> pattern_names.contains(name) by {
        if patterns.dom().contains(name) {
            let i = choose|i: int| 0 <= i < listed.len() && (#[trigger] listed[i]).0 == name;
            assert(i == 0 || i == 1);
        }
    }
    assert(patterns.dom() =~= pattern_names);
}

/// Only an object with exactly the members of a bootstrap is read as one, and
/// then member by member; the input has between one byte and sixteen mebibytes.
pub proof fn bootstraps_are_read_member_by_member(
    encoded: &[u8],
    named_once: bool,
    members: Map<Seq<char>, Json>,
    r: Result<WorkerBootstrapEnvelope, WorkerBootstrapError>,
)
    requires
        call_ensures(WorkerBootstrapEnvelope::from_json, (encoded, named_once), r),
    ensures
        r is Ok ==> 1 <= encoded@.len() <= 16_777_216 && named_once && json::json_document(encoded@)
            is Some,
        r matches Err(failure) ==> failure is InvalidInput,
        json::json_document(encoded@) == Some(Json::Object(members)) ==> (r matches Ok(envelope)
            ==> {
            &&& forall|name: Seq<char>| #[trigger]
                members.dom().contains(name) <==> name == "version"@ || name == "runtime_parent"@
                    || name == "server"@ || name == "parent_environment"@ || name
                    == "idle_timeout_millis"@ || name == "startup_timeout_millis"@
            &&& members["version"@] == Json::Unsigned(envelope.version as u64)
            &&& members["runtime_parent"@] matches Json::Str(parent) && envelope.runtime_parent@
                == vstd::utf8::encode_utf8(parent)
            &&& members["idle_timeout_millis"@] == Json::Unsigned(envelope.idle_timeout_millis)
            &&& members["startup_timeout_millis"@] == Json::Unsigned(
                envelope.startup_timeout_millis,
            )
            &&& entries_of(members["parent_environment"@]) == Some(
                config::entry_texts(envelope.parent_environment@),
            )
            &&& server_of(members["server"@]) == Some(envelope.server@)
            &&& envelope.startup_fault is None
        }),
{
    if let Ok(envelope) = r {
        if json::json_document(encoded@) == Some(Json::Object(members)) {
            let names = envelope_names();
            let fields = json::field_values(Json::Object(members), names)->0;
            assert(names[0] == "version"@ && names[1] == "runtime_parent"@ && names[2]
                == "server"@ && names[3] == "parent_environment"@ && names[4]
                == "idle_timeout_millis"@ && names[5] == "startup_timeout_millis"@);
            assert(fields[0] == members["version"@] && fields[1] == members["runtime_parent"@]
                && fields[2] == members["server"@] && fields[3] == members["parent_environment"@]
                && fields[4] == members["idle_timeout_millis"@] && fields[5]
                == members["startup_timeout_millis"@]);
            assert forall|name: Seq<char>| #[trigger]
                members.dom().contains(name) <==> name == "version"@ || name == "runtime_parent"@
                    || name == "server"@ || name == "parent_environment"@ || name
                    == "idle_timeout_millis"@ || name == "startup_timeout_millis"@ by {
                if names.contains(name) {
                    let i = choose|i: int| 0 <= i < names.len() && names[i] == name;
                    assert(i == 0 || i == 1 || i == 2 || i == 3 || i == 4 || i == 5);
                }
                assert(names.contains(names[0]) && names.contains(names[1]) && names.contains(
                    names[2],
                ) && names.contains(names[3]) && names.contains(names[4]) && names.contains(
                    names[5],
                ));
            }
        }
    }
}

} // verus!
