//! PID metadata as JSON text.

use vstd::prelude::*;

use crate::config;
use crate::config::ConfigHash;
use crate::daemon::metadata::PidMetadata;
use crate::json;
use crate::json::{object_text, parse_json, Json, JsonObject, JsonValue};
use crate::text;
use crate::time;
use crate::time::SystemTime;

verus! {

/// The content of [`PidMetadata`].
#[verifier::ext_equal]
pub struct PidContent {
    pub pid: u32,
    pub config_hash: Seq<u8>,
    pub started_at: SystemTime,
}

impl View for PidMetadata {
    type V = PidContent;

    open spec fn view(&self) -> PidContent {
        PidContent {
            pid: self.pid,
            config_hash: self.config_hash.0@,
            started_at: self.started_at,
        }
    }
}

/// The names under which a time is stored.
pub open spec fn time_names() -> Seq<Seq<char>> {
    seq!["secs_since_epoch"@, "nanos_since_epoch"@]
}

/// The names under which metadata is stored.
pub open spec fn pid_names() -> Seq<Seq<char>> {
    seq!["pid"@, "config_hash"@, "started_at"@]
}

/// A time as members of an object.
pub open spec fn time_members(started_at: SystemTime) -> Seq<(Seq<char>, Json)> {
    seq![
        ("secs_since_epoch"@, Json::Unsigned(started_at.seconds)),
        ("nanos_since_epoch"@, Json::Unsigned(started_at.nanoseconds as u64)),
    ]
}

/// Metadata as members of an object.
pub open spec fn pid_members(content: PidContent) -> Seq<(Seq<char>, Json)> {
    seq![
        ("pid"@, Json::Unsigned(content.pid as u64)),
        ("config_hash"@, Json::Str(config::hex_of(content.config_hash))),
        ("started_at"@, Json::Object(json::member_map(time_members(content.started_at)))),
    ]
}

/// Metadata as a JSON document.
pub open spec fn pid_document(content: PidContent) -> Json {
    Json::Object(json::member_map(pid_members(content)))
}

/// Metadata as JSON text.
pub open spec fn stored_form(content: PidContent) -> Seq<u8> {
    json::json_object_text(pid_members(content))
}

/// Reading the stored form gives the document that was written.
pub open spec fn reads_as(content: PidContent) -> bool {
    json::json_document(stored_form(content)) == Some(pid_document(content))
}

/// The time that a value stands for. The nanoseconds may exceed one second.
pub open spec fn time_of(value: Json) -> Option<SystemTime> {
    match json::field_values(value, time_names()) {
        Some(fields) => match (fields[0], fields[1]) {
            (Json::Unsigned(seconds), Json::Unsigned(nanoseconds)) => if nanoseconds <= u32::MAX {
                time::epoch_time(seconds as nat * 1_000_000_000 + nanoseconds as nat)
            } else {
                None
            },
            _ => None,
        },
        None => None,
    }
}

/// The metadata that a value stands for.
pub open spec fn pid_of(value: Json) -> Option<PidContent> {
    match json::field_values(value, pid_names()) {
        Some(fields) => match (fields[0], fields[1], time_of(fields[2])) {
            (Json::Unsigned(pid), Json::Str(encoded), Some(started_at)) => match config::digest_of(
                vstd::utf8::encode_utf8(encoded),
            ) {
                Some(config_hash) => if pid <= u32::MAX {
                    Some(PidContent { pid: pid as u32, config_hash, started_at })
                } else {
                    None
                },
                None => None,
            },
            _ => None,
        },
        None => None,
    }
}

/// The metadata that JSON text stands for. Where an object of the text names a
/// member twice, the last one counts.
pub open spec fn decoded(bytes: Seq<u8>) -> Option<PidContent> {
    match json::json_document(bytes) {
        Some(value) => pid_of(value),
        None => None,
    }
}

/// The time is one that a clock can show.
pub open spec fn proper_time(started_at: SystemTime) -> bool {
    started_at.seconds <= time::MAX_EPOCH_SECONDS && started_at.nanoseconds < 1_000_000_000
}

proof fn lemma_names()
    ensures
        "secs_since_epoch"@ != "nanos_since_epoch"@,
        "pid"@ != "config_hash"@,
        "pid"@ != "started_at"@,
        "config_hash"@ != "started_at"@,
{
    reveal_strlit("secs_since_epoch");
    reveal_strlit("nanos_since_epoch");
    reveal_strlit("pid");
    reveal_strlit("config_hash");
    reveal_strlit("started_at");
    assert("secs_since_epoch"@.len() == 16 && "nanos_since_epoch"@.len() == 17);
    assert("pid"@.len() == 3 && "config_hash"@.len() == 11 && "started_at"@.len() == 10);
}

/// A time survives its stored form.
proof fn lemma_time_round_trip(started_at: SystemTime)
    ensures
        json::distinct_members(time_members(started_at)),
        proper_time(started_at) ==> time_of(
            Json::Object(json::member_map(time_members(started_at))),
        ) == Some(started_at),
        json::reads_back(Json::Object(json::member_map(time_members(started_at))), 1),
{
    lemma_names();
    let listed = time_members(started_at);
    json::lemma_fields(listed, time_names());
    json::lemma_member_map(listed);
    let members = json::member_map(listed);
    assert forall|name: Seq<char>| #[trigger] members.dom().contains(name) implies json::reads_back(
        members[name],
        0,
    ) by {
        let i = choose|i: int| 0 <= i < listed.len() && (#[trigger] listed[i]).0 == name;
        assert(i == 0 || i == 1);
    }
}

/// Metadata survives its stored form, which has exactly the members `pid`,
/// `config_hash` and `started_at`.
pub proof fn metadata_survives_its_document(content: PidContent)
    requires
        content.config_hash.len() == 32,
        proper_time(content.started_at),
    ensures
        json::distinct_members(pid_members(content)),
        pid_of(pid_document(content)) == Some(content),
        pid_document(content) matches Json::Object(members) && members.dom()
            == pid_names().to_set(),
{
    lemma_names();
    json::lemma_fields(pid_members(content), pid_names());
    lemma_time_round_trip(content.started_at);
    config::digests_survive_their_text(content.config_hash);
}

proof fn lemma_document_reads_back(content: PidContent)
    ensures
        json::distinct_members(pid_members(content)),
        json::reads_back(pid_document(content), json::MAX_DEPTH as nat),
{
    lemma_names();
    lemma_time_round_trip(content.started_at);
    let listed = pid_members(content);
    json::lemma_member_map(listed);
    let members = json::member_map(listed);
    let times = json::member_map(time_members(content.started_at));
    let left = (json::MAX_DEPTH - 1) as nat;
    json::lemma_member_map(time_members(content.started_at));
    assert forall|name: Seq<char>| #[trigger] times.dom().contains(name) implies json::reads_back(
        times[name],
        (left - 1) as nat,
    ) by {
        let named = time_members(content.started_at);
        let i = choose|i: int| 0 <= i < named.len() && (#[trigger] named[i]).0 == name;
        assert(i == 0 || i == 1);
    }
    assert(json::reads_back(Json::Object(times), left));
    assert forall|name: Seq<char>| #[trigger] members.dom().contains(name) implies json::reads_back(
        members[name],
        left,
    ) by {
        let i = choose|i: int| 0 <= i < listed.len() && (#[trigger] listed[i]).0 == name;
        assert(i == 0 || i == 1 || i == 2);
    }
}

/// A document with another member than these three is no metadata.
pub proof fn other_members_are_refused(members: Map<Seq<char>, Json>, name: Seq<char>)
    requires
        members.dom().contains(name),
        !pid_names().contains(name),
    ensures
        pid_of(Json::Object(members)) is None,
{
}

fn read_time(value: &JsonValue) -> (r: Option<SystemTime>)
    ensures
        r == time_of(value@),
{
    let names: [&str; 2] = ["secs_since_epoch", "nanos_since_epoch"];
    assert(text::slices(names@) =~= time_names());
    let fields = match value.fields(&names) {
        Some(fields) => fields,
        None => return None,
    };
    assert(json::borrowed(fields@)[0] == fields@[0]@ && json::borrowed(fields@)[1] == fields@[1]@);
    match (fields[0].as_unsigned(), fields[1].as_unsigned()) {
        (Some(seconds), Some(nanoseconds)) => if nanoseconds <= u32::MAX as u64 {
            SystemTime::after_epoch(seconds, nanoseconds)
        } else {
            None
        },
        _ => None,
    }
}

fn read_metadata(value: &JsonValue) -> (r: Option<PidMetadata>)
    ensures
        match pid_of(value@) {
            Some(content) => r matches Some(metadata) && metadata@ == content,
            None => r is None,
        },
{
    let names: [&str; 3] = ["pid", "config_hash", "started_at"];
    assert(text::slices(names@) =~= pid_names());
    let fields = match value.fields(&names) {
        Some(fields) => fields,
        None => return None,
    };
    assert(json::borrowed(fields@)[0] == fields@[0]@ && json::borrowed(fields@)[1] == fields@[1]@
        && json::borrowed(fields@)[2] == fields@[2]@);
    let pid = match fields[0].as_unsigned() {
        Some(pid) => pid,
        None => return None,
    };
    let config_hash = match fields[1].as_str() {
        Some(encoded) => match ConfigHash::from_hex(encoded) {
            Some(config_hash) => config_hash,
            None => return None,
        },
        None => return None,
    };
    let started_at = match read_time(fields[2]) {
        Some(started_at) => started_at,
        None => return None,
    };
    if pid > u32::MAX as u64 {
        return None;
    }
    Some(PidMetadata { pid: pid as u32, config_hash, started_at })
}

impl PidMetadata {
    /// The JSON text of the metadata. Reading the text gives the metadata back.
    pub fn to_json(&self) -> (r: Vec<u8>)
        ensures
            r@ == stored_form(self@),
            reads_as(self@),
            proper_time(self.started_at) ==> decoded(r@) == Some(self@),
    {
        let mut started_at = JsonObject::new();
        let seconds = JsonValue::Unsigned(self.started_at.seconds);
        let nanoseconds = JsonValue::Unsigned(self.started_at.nanoseconds as u64);
        let pid = JsonValue::Unsigned(self.pid as u64);
        proof {
            json::lemma_json_of(seconds);
            json::lemma_json_of(nanoseconds);
            json::lemma_json_of(pid);
            let named = time_members(self.started_at);
            assert(named.drop_last().drop_last() =~= Seq::<(Seq<char>, Json)>::empty());
            reveal_with_fuel(json::member_map, 3);
            lemma_document_reads_back(self@);
            if proper_time(self.started_at) {
                metadata_survives_its_document(self@);
            }
        }
        started_at.insert("secs_since_epoch", seconds);
        started_at.insert("nanos_since_epoch", nanoseconds);
        assert(started_at@ =~= json::member_map(time_members(self.started_at)));
        let mut members: Vec<(String, JsonValue)> = Vec::new();
        members.push(("pid".to_owned(), pid));
        members.push(
            ("config_hash".to_owned(), JsonValue::text(self.config_hash.to_hex().as_str())),
        );
        members.push(("started_at".to_owned(), JsonValue::object(started_at)));
        assert(json::members_of(members@) =~= pid_members(self@));
        object_text(&members)
    }

    /// Reads metadata from JSON text. Other members than those of the metadata
    /// are refused. That a name is given twice is not seen here.
    pub fn from_json(bytes: &[u8]) -> (r: Option<PidMetadata>)
        ensures
            match decoded(bytes@) {
                Some(content) => r matches Some(metadata) && metadata@ == content,
                None => r is None,
            },
    {
        match parse_json(bytes) {
            Some(value) => read_metadata(&value),
            None => None,
        }
    }
}

/// Metadata is an object with exactly these members, and so is its time.
pub proof fn metadata_has_its_members(content: PidContent)
    ensures
        pid_document(content) matches Json::Object(members) && {
            &&& members.dom() == set!["pid"@, "config_hash"@, "started_at"@]
            &&& members["pid"@] == Json::Unsigned(content.pid as u64)
            &&& members["config_hash"@] == Json::Str(config::hex_of(content.config_hash))
            &&& members["started_at"@] matches Json::Object(time) && {
                &&& time.dom() == set!["secs_since_epoch"@, "nanos_since_epoch"@]
                &&& time["secs_since_epoch"@] == Json::Unsigned(content.started_at.seconds)
                &&& time["nanos_since_epoch"@] == Json::Unsigned(
                    content.started_at.nanoseconds as u64,
                )
            }
        },
{
    reveal_strlit("pid");
    reveal_strlit("config_hash");
    reveal_strlit("started_at");
    reveal_strlit("secs_since_epoch");
    reveal_strlit("nanos_since_epoch");
    assert("pid"@.len() == 3 && "config_hash"@.len() == 11 && "started_at"@.len() == 10);
    assert("secs_since_epoch"@.len() == 16 && "nanos_since_epoch"@.len() == 17);
    let named = pid_members(content);
    assert(named[0].0 == "pid"@ && named[1].0 == "config_hash"@ && named[2].0 == "started_at"@);
    assert(json::distinct_members(named));
    json::lemma_member_map(named);
    let members = json::member_map(named);
    let names = set!["pid"@, "config_hash"@, "started_at"@];
    assert forall|name: Seq<char>| #[trigger] members.dom().contains(name) <==> names.contains(
        name,
    ) by {
        if members.dom().contains(name) {
            let i = choose|i: int| 0 <= i < named.len() && (#[trigger] named[i]).0 == name;
            assert(i == 0 || i == 1 || i == 2);
        }
    }
    assert(members.dom() =~= names);
    let parts = time_members(content.started_at);
    assert(parts[0].0 == "secs_since_epoch"@ && parts[1].0 == "nanos_since_epoch"@);
    assert(json::distinct_members(parts));
    json::lemma_member_map(parts);
    let time = json::member_map(parts);
    let time_set = set!["secs_since_epoch"@, "nanos_since_epoch"@];
    assert forall|name: Seq<char>| #[trigger] time.dom().contains(name) <==> time_set.contains(
        name,
    ) by {
        if time.dom().contains(name) {
            let i = choose|i: int| 0 <= i < parts.len() && (#[trigger] parts[i]).0 == name;
            assert(i == 0 || i == 1);
        }
    }
    assert(time.dom() =~= time_set);
}

/// What is read as metadata says so member by member, with a digest for a hash and
/// a time that adds up.
pub proof fn metadata_is_read_member_by_member(
    bytes: &[u8],
    members: Map<Seq<char>, Json>,
    time: Map<Seq<char>, Json>,
    r: Option<PidMetadata>,
)
    requires
        call_ensures(PidMetadata::from_json, (bytes,), r),
        json::json_document(bytes@) == Some(Json::Object(members)),
        members.dom().contains("started_at"@),
        members["started_at"@] == Json::Object(time),
    ensures
        r matches Some(metadata) ==> {
            &&& members["pid"@] == Json::Unsigned(metadata.pid as u64)
            &&& members["config_hash"@] matches Json::Str(encoded) && config::digest_of(
                vstd::utf8::encode_utf8(encoded),
            ) == Some(metadata.config_hash.0@)
            &&& time["secs_since_epoch"@] matches Json::Unsigned(seconds) && (
            time["nanos_since_epoch"@] matches Json::Unsigned(nanoseconds)
                && metadata.started_at.seconds * 1_000_000_000 + metadata.started_at.nanoseconds
                == seconds * 1_000_000_000 + nanoseconds && metadata.started_at.nanoseconds
                < 1_000_000_000)
        },
{
    if let Some(metadata) = r {
        let names = pid_names();
        let fields = json::field_values(Json::Object(members), names)->0;
        assert(names[0] == "pid"@ && names[1] == "config_hash"@ && names[2] == "started_at"@);
        assert(fields[0] == members["pid"@] && fields[1] == members["config_hash"@] && fields[2]
            == members["started_at"@]);
        let parts = time_names();
        let values = json::field_values(Json::Object(time), parts)->0;
        assert(parts[0] == "secs_since_epoch"@ && parts[1] == "nanos_since_epoch"@);
        assert(values[0] == time["secs_since_epoch"@] && values[1] == time["nanos_since_epoch"@]);
    }
}

/// Text that is no document, or a document that is neither object nor array, is no
/// metadata.
pub proof fn only_structures_are_metadata(bytes: &[u8], r: Option<PidMetadata>)
    requires
        call_ensures(PidMetadata::from_json, (bytes,), r),
    ensures
        json::json_document(bytes@) is None ==> r is None,
        json::json_document(bytes@) matches Some(value) ==> !(value is Object) && !(value is Array)
            ==> r is None,
{
}

} // verus!
