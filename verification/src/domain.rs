//! Transport-independent domain values shared by commands, connections, and output.

use vstd::prelude::*;

use crate::error::CliError;
use crate::json;
use crate::json::{Json, JsonValue};
use crate::text;

verus! {

/// Metadata for a tool advertised by an MCP server.
#[derive(Clone, Debug, PartialEq)]
pub struct ToolInfo {
    pub name: String,
    pub description: Option<String>,
    pub input_schema: JsonValue,
}

/// The content of a tool description.
#[verifier::ext_equal]
pub struct ToolContent {
    pub name: Seq<char>,
    pub description: Option<Seq<char>>,
    pub input_schema: Json,
}

pub open spec fn tool_content(tool: ToolInfo) -> ToolContent {
    ToolContent {
        name: tool.name@,
        description: text::optional(tool.description),
        input_schema: tool.input_schema@,
    }
}

pub open spec fn tool_contents(tools: Seq<ToolInfo>) -> Seq<ToolContent> {
    tools.map_values(|tool: ToolInfo| tool_content(tool))
}

/// The JSON object of a tool description. A missing description is null.
pub open spec fn tool_json(tool: ToolContent) -> Json {
    Json::Object(
        map![
            "name"@ => Json::Str(tool.name),
            "description"@ => match tool.description {
                Some(description) => Json::Str(description),
                None => Json::Null,
            },
            "input_schema"@ => tool.input_schema,
        ],
    )
}

/// A description as a member of an object or an item of a list.
pub open spec fn description_of(value: Json) -> Option<Option<Seq<char>>> {
    match value {
        Json::Null => Some(None),
        Json::Str(description) => Some(Some(description)),
        _ => None,
    }
}

/// The tool description that a value stands for: an object with at least a name
/// and a schema, or a list of exactly the three values in their order.
pub open spec fn tool_of(value: Json) -> Option<ToolContent> {
    match value {
        Json::Object(members) => if members.dom().contains("name"@) && members["name"@] is Str
            && members.dom().contains("input_schema"@) {
            let description = if members.dom().contains("description"@) {
                description_of(members["description"@])
            } else {
                Some(None)
            };
            match description {
                Some(description) => Some(
                    ToolContent {
                        name: members["name"@]->Str_0,
                        description,
                        input_schema: members["input_schema"@],
                    },
                ),
                None => None,
            }
        } else {
            None
        },
        Json::Array(items) => if items.len() == 3 && items[0] is Str {
            match description_of(items[1]) {
                Some(description) => Some(
                    ToolContent {
                        name: items[0]->Str_0,
                        description,
                        input_schema: items[2],
                    },
                ),
                None => None,
            }
        } else {
            None
        },
        _ => None,
    }
}

/// The tool descriptions that a list stands for.
pub open spec fn tools_of(value: Json) -> Option<Seq<ToolContent>> {
    match value {
        Json::Array(items) => if forall|i: int|
            0 <= i < items.len() ==> tool_of(#[trigger] items[i]) is Some {
            Some(Seq::new(items.len(), |i: int| tool_of(items[i])->0))
        } else {
            None
        },
        _ => None,
    }
}

pub open spec fn tools_json(tools: Seq<ToolContent>) -> Json {
    Json::Array(tools.map_values(|tool: ToolContent| tool_json(tool)))
}

impl ToolInfo {
    pub fn to_json(&self) -> (r: JsonValue)
        ensures
            r@ == tool_json(tool_content(*self)),
    {
        let mut object = JsonObject::new();
        object.insert("name", JsonValue::text(self.name.as_str()));
        match &self.description {
            Some(description) => object.insert(
                "description",
                JsonValue::text(description.as_str()),
            ),
            None => object.insert("description", JsonValue::null()),
        }
        object.insert("input_schema", self.input_schema.clone());
        JsonValue::object(object)
    }

    /// Reads a tool description.
    pub fn from_json(value: &JsonValue) -> (r: Option<ToolInfo>)
        ensures
            match tool_of(value@) {
                Some(content) => r matches Some(tool) && tool_content(tool) == content,
                None => r is None,
            },
    {
        proof {
            json::lemma_json_of(*value);
        }
        let (name, description, input_schema) = match value {
            JsonValue::Object(object) => match (object.get("name"), object.get("input_schema")) {
                (Some(name), Some(input_schema)) => (name, object.get("description"), input_schema),
                _ => return None,
            },
            JsonValue::Array(items) => {
                if items.len() != 3 {
                    return None;
                }
                (&items[0], Some(&items[1]), &items[2])
            },
            _ => return None,
        };
        let name = match name.as_str() {
            Some(name) => name.to_owned(),
            None => return None,
        };
        let description = match description {
            None => None,
            Some(member) => {
                proof {
                    json::lemma_json_of(*member);
                }
                match member {
                    JsonValue::Null => None,
                    _ => match member.as_str() {
                        Some(description) => Some(description.to_owned()),
                        None => return None,
                    },
                }
            },
        };
        Some(ToolInfo { name, description, input_schema: input_schema.clone() })
    }
}

/// The JSON list of tool descriptions.
pub fn tools_to_json(tools: &[ToolInfo]) -> (r: JsonValue)
    ensures
        r@ == tools_json(tool_contents(tools@)),
{
    let mut items: Vec<JsonValue> = Vec::new();
    let ghost expected = tool_contents(tools@).map_values(|tool: ToolContent| tool_json(tool));
    let mut index: usize = 0;
    assert(json::contents(items@) =~= expected.take(0));
    while index < tools.len()
        invariant
            index <= tools.len(),
            expected == tool_contents(tools@).map_values(|tool: ToolContent| tool_json(tool)),
            json::contents(items@) == expected.take(index as int),
        decreases tools.len() - index,
    {
        let item = tools[index].to_json();
        let ghost before = json::contents(items@);
        let ghost content = item@;
        items.push(item);
        assert(json::contents(items@) =~= before.push(content));
        assert(expected.take(index + 1) =~= expected.take(index as int).push(
            expected[index as int],
        ));
        index += 1;
    }
    assert(expected.take(index as int) =~= expected);
    JsonValue::list(items)
}

/// Reads a list of tool descriptions.
pub fn tools_from_json(value: &JsonValue) -> (r: Option<Vec<ToolInfo>>)
    ensures
        match tools_of(value@) {
            Some(contents) => r matches Some(tools) && tool_contents(tools@) == contents,
            None => r is None,
        },
{
    proof {
        json::lemma_json_of(*value);
    }
    let items = match value {
        JsonValue::Array(items) => items,
        _ => return None,
    };
    let ghost listed = json::contents(items@);
    let mut tools: Vec<ToolInfo> = Vec::new();
    let mut index: usize = 0;
    while index < items.len()
        invariant
            index <= items.len(),
            listed == json::contents(items@),
            value@ == Json::Array(listed),
            tools@.len() == index,
            forall|i: int| 0 <= i < index ==> tool_of(#[trigger] listed[i]) is Some,
            forall|i: int|
                0 <= i < index ==> tool_content(#[trigger] tools@[i]) == tool_of(listed[i])->0,
        decreases items.len() - index,
    {
        assert(listed[index as int] == items@[index as int]@);
        match ToolInfo::from_json(&items[index]) {
            Some(tool) => tools.push(tool),
            None => return None,
        }
        index += 1;
    }
    assert(tool_contents(tools@) =~= tools_of(value@)->0);
    Some(tools)
}

/// Tool descriptions survive their JSON form.
pub proof fn tools_survive_json(tools: Seq<ToolContent>)
    ensures
        tools_of(tools_json(tools)) == Some(tools),
{
    let items = tools.map_values(|tool: ToolContent| tool_json(tool));
    assert forall|i: int| 0 <= i < items.len() implies tool_of(#[trigger] items[i]) == Some(
        tools[i],
    ) by {
        lemma_tool_names();
        assert(items[i] == tool_json(tools[i]));
        assert(tool_of(items[i])->0 =~= tools[i]);
    }
    assert(tools_of(tools_json(tools))->0 =~= tools);
}

proof fn lemma_tool_names()
    ensures
        "name"@ != "description"@,
        "name"@ != "input_schema"@,
        "description"@ != "input_schema"@,
{
    reveal_strlit("name");
    reveal_strlit("description");
    reveal_strlit("input_schema");
    assert("name"@.len() == 4);
    assert("description"@.len() == 11);
    assert("input_schema"@.len() == 12);
}

/// The only valid top-level argument shape for an MCP tool call.
pub type JsonObject = crate::json::JsonObject;

/// A complete MCP tool result.
///
/// This deliberately remains an unmodified JSON value so adapter-specific and
/// future protocol extension fields are preserved.
pub type ToolResult = JsonValue;

/// What is known of a parsed URL.
pub struct UrlContent {
    pub text: Seq<char>,
    pub scheme: Seq<char>,
    pub has_host: bool,
}

/// An absolute URL in its normal form.
#[derive(Clone, Debug, PartialEq, Eq)]
pub struct Url {
    text: String,
    scheme: String,
    has_host: bool,
}

impl View for Url {
    type V = UrlContent;

    closed spec fn view(&self) -> UrlContent {
        UrlContent { text: self.text@, scheme: self.scheme@, has_host: self.has_host }
    }
}

/// The URL that a text stands for.
pub uninterp spec fn parsed_url(text: Seq<char>) -> Option<UrlContent>;

/// `url::Url::parse`: the result depends on the text alone. It is taken apart
/// with `Url::as_str`, `Url::scheme` and `Url::host`.
#[verifier::external_body]
fn parse_url(text: &str) -> (r: Option<(String, String, bool)>)
    ensures
        match parsed_url(text@) {
            Some(content) => r matches Some(parts) && parts.0@ == content.text && parts.1@
                == content.scheme && parts.2 == content.has_host,
            None => r is None,
        },
{
    let url = url::Url::parse(text).ok()?;
    Some((url.as_str().to_owned(), url.scheme().to_owned(), url.host().is_some()))
}

impl Url {
    pub fn parse(text: &str) -> (r: Option<Self>)
        ensures
            match parsed_url(text@) {
                Some(content) => r matches Some(url) && url@ == content,
                None => r is None,
            },
    {
        match parse_url(text) {
            Some((text, scheme, has_host)) => Some(Url { text, scheme, has_host }),
            None => None,
        }
    }

    pub fn as_str(&self) -> (r: &str)
        ensures
            r@ == self@.text,
    {
        self.text.as_str()
    }

    pub fn scheme(&self) -> (r: &str)
        ensures
            r@ == self@.scheme,
    {
        self.scheme.as_str()
    }

    pub fn has_host(&self) -> (r: bool)
        ensures
            r == self@.has_host,
    {
        self.has_host
    }
}

/// A presentation-safe summary of a server transport.
#[derive(Clone, Debug, PartialEq, Eq)]
pub enum TransportSummary {
    Stdio { command: String },
    Http { url: Url },
}

/// The tagged JSON form of a transport summary.
pub open spec fn transport_summary_json(summary: TransportSummary) -> Json {
    match summary {
        TransportSummary::Stdio { command } => Json::Object(
            map!["kind"@ => Json::Str("Stdio"@), "command"@ => Json::Str(command@)],
        ),
        TransportSummary::Http { url } => Json::Object(
            map!["kind"@ => Json::Str("Http"@), "url"@ => Json::Str(url@.text)],
        ),
    }
}

impl TransportSummary {
    /// The tagged JSON form.
    pub fn to_json(&self) -> (r: JsonValue)
        ensures
            r@ == transport_summary_json(*self),
    {
        let mut object = JsonObject::new();
        match self {
            TransportSummary::Stdio { command } => {
                let kind = JsonValue::String("Stdio".to_owned());
                let value = JsonValue::String(command.clone());
                proof {
                    json::lemma_json_of(kind);
                    json::lemma_json_of(value);
                }
                object.insert("kind", kind);
                object.insert("command", value);
            },
            TransportSummary::Http { url } => {
                let kind = JsonValue::String("Http".to_owned());
                let value = JsonValue::String(url.as_str().to_owned());
                proof {
                    json::lemma_json_of(kind);
                    json::lemma_json_of(value);
                }
                object.insert("kind", kind);
                object.insert("url", value);
            },
        }
        let r = JsonValue::Object(object);
        proof {
            json::lemma_json_of(r);
            assert(r@->Object_0 =~= transport_summary_json(*self)->Object_0);
        }
        r
    }
}

/// Information collected from one server for list and info presentation.
#[derive(Clone, Debug, PartialEq)]
pub struct ServerSnapshot {
    pub server: String,
    pub transport_summary: TransportSummary,
    pub instructions: Option<String>,
    pub tools: Vec<ToolInfo>,
}

/// The isolated result of operating on one configured server.
#[derive(Debug)]
pub enum PerServer<T> {
    Success { server: String, value: T },
    Failure { server: String, error: CliError },
}

/// The server that a result belongs to.
pub open spec fn server_of<T>(result: PerServer<T>) -> Seq<char> {
    match result {
        PerServer::Success { server, .. } => server@,
        PerServer::Failure { server, .. } => server@,
    }
}

impl<T> PerServer<T> {
    pub fn server(&self) -> (r: &str)
        ensures
            r@ == server_of(*self),
    {
        match self {
            PerServer::Success { server, .. } => server.as_str(),
            PerServer::Failure { server, .. } => server.as_str(),
        }
    }
}

/// One authorized tool matched by a cross-server search.
#[derive(Clone, Debug, PartialEq)]
pub struct SearchHit {
    pub server: String,
    pub tool: ToolInfo,
}

/// Business output returned by a command handler.
#[derive(Clone, Debug, PartialEq)]
pub enum CommandOutcome {
    HumanText(String),
    Json(JsonValue),
    Empty,
}

/// The connection strategy selected by the connection manager.
///
/// `Daemon` is a logical mode only; it does not expose a Unix socket type and
/// is therefore safe to use in cross-platform command code.
#[derive(Clone, Copy, Debug, PartialEq, Eq, Structural)]
pub enum ConnectionMode {
    Direct,
    Daemon,
}

/// A tool description is an object with a name and a schema, and a description
/// where it has one: each member of the value becomes its field, other members
/// do not matter, and a value of any other kind is refused.
pub proof fn tool_descriptions_are_read_member_by_member(
    value: &JsonValue,
    read: Option<ToolInfo>,
    name: Seq<char>,
    schema: Json,
    members: Map<Seq<char>, Json>,
    other: Seq<char>,
    extra: Json,
)
    requires
        call_ensures(ToolInfo::from_json, (value,), read),
        value@ == Json::Object(members),
    ensures
        read is Some <==> {
            &&& members.dom().contains("name"@) && members["name"@] is Str
            &&& members.dom().contains("input_schema"@)
            &&& !members.dom().contains("description"@) || members["description"@] is Str
                || members["description"@] is Null
        },
        read matches Some(tool) ==> {
            &&& Json::Str(tool.name@) == members["name"@]
            &&& tool.input_schema@ == members["input_schema"@]
            &&& tool.description matches Some(description) ==> members.dom().contains(
                "description"@,
            ) && members["description"@] == Json::Str(description@)
            &&& tool.description is None ==> !members.dom().contains("description"@)
                || members["description"@] is Null
        },
        other != "name"@ && other != "description"@ && other != "input_schema"@ ==> tool_of(
            Json::Object(members.insert(other, extra)),
        ) == tool_of(Json::Object(members)),
{
}

/// A written tool description holds its name, its schema, and its description,
/// which is null where there is none.
pub proof fn tool_descriptions_are_written_in_full(tool: &ToolInfo, written: JsonValue)
    requires
        call_ensures(ToolInfo::to_json, (tool,), written),
    ensures
        written@ matches Json::Object(members) && {
            &&& members.dom() == set!["name"@, "description"@, "input_schema"@]
            &&& members["name"@] == Json::Str(tool.name@)
            &&& members["input_schema"@] == tool.input_schema@
            &&& members["description"@] == (match tool.description {
                Some(description) => Json::Str(description@),
                None => Json::Null,
            })
        },
{
    reveal_strlit("name");
    reveal_strlit("description");
    reveal_strlit("input_schema");
    assert("name"@.len() == 4 && "description"@.len() == 11 && "input_schema"@.len() == 12);
    assert(written@->Object_0.dom() =~= set!["name"@, "description"@, "input_schema"@]);
}

/// A list of tools is read exactly if every one of its items is, item by item
/// and in order.
pub proof fn tool_lists_are_read_item_by_item(
    value: &JsonValue,
    items: Seq<Json>,
    read: Option<Vec<ToolInfo>>,
)
    requires
        call_ensures(tools_from_json, (value,), read),
        value@ == Json::Array(items),
    ensures
        read is Some <==> forall|i: int|
            0 <= i < items.len() ==> tool_of(#[trigger] items[i]) is Some,
        read matches Some(tools) ==> tools@.len() == items.len() && forall|i: int|
            0 <= i < items.len() ==> tool_of(#[trigger] items[i]) == Some(tool_content(tools@[i])),
{
    if let Some(tools) = read {
        let found = tools_of(value@)->0;
        assert(tool_contents(tools@) == found);
        assert(tool_contents(tools@).len() == tools@.len());
        assert forall|i: int| 0 <= i < items.len() implies tool_of(#[trigger] items[i]) == Some(
            tool_content(tools@[i]),
        ) by {
            assert(found[i] == tool_contents(tools@)[i]);
        }
    }
}

/// A transport is summed up by its kind and by the one thing that identifies it.
pub proof fn summaries_name_their_transport(summary: &TransportSummary, written: JsonValue)
    requires
        call_ensures(TransportSummary::to_json, (summary,), written),
    ensures
        written@ matches Json::Object(members) && match *summary {
            TransportSummary::Stdio { command } => members == map![
                "kind"@ => Json::Str("Stdio"@),
                "command"@ => Json::Str(command@),
            ],
            TransportSummary::Http { url } => members == map![
                "kind"@ => Json::Str("Http"@),
                "url"@ => Json::Str(url@.text),
            ],
        },
{
}

} // verus!
