//! Configuration values shared by the policies and the daemon.

use vstd::prelude::*;

use crate::domain::Url;
use crate::policy::redact::SecretSet;
use crate::text;
use crate::text::hex_character;

verus! {

/// The number of hexadecimal characters in a SHA-256 digest.
pub const SHA256_HEX_LENGTH: usize = 64;

/// The full lower-case SHA-256 digest of a server name.
#[derive(Clone, Debug, PartialEq, Eq)]
pub struct ServerId(pub String);

/// The SHA-256 digest of one server's configuration.
#[derive(Clone, Copy, Debug, PartialEq, Eq)]
pub struct ConfigHash(pub [u8; 32]);

/// How one server is reached. Environment entries and headers are listed by
/// name in ascending order, each name once.
#[derive(Clone, Debug, PartialEq, Eq)]
pub enum TransportConfig {
    Stdio {
        command: String,
        args: Vec<String>,
        env: Vec<(String, String)>,
        cwd: Option<Vec<u8>>,
    },
    Http { url: Url, headers: Vec<(String, String)> },
}

/// One configured server.
#[derive(Clone, Debug, PartialEq, Eq)]
pub struct ServerDefinition {
    pub name: String,
    pub id: ServerId,
    pub config_hash: ConfigHash,
    pub transport: TransportConfig,
    pub filter: ToolFilterConfig,
}

/// Tool visibility patterns configured for one server.
#[derive(Clone, Debug, PartialEq, Eq)]
pub struct ToolFilterConfig {
    pub allowed_tools: Vec<String>,
    pub disabled_tools: Vec<String>,
}

impl Default for ToolFilterConfig {
    /// Both pattern lists are empty, which allows every tool.
    fn default() -> (r: Self)
        ensures
            r.allowed_tools@.len() == 0,
            r.disabled_tools@.len() == 0,
    {
        ToolFilterConfig { allowed_tools: Vec::new(), disabled_tools: Vec::new() }
    }
}

/// Two lower-case hexadecimal digits for each byte.
pub open spec fn hex_of(bytes: Seq<u8>) -> Seq<char> {
    Seq::new(
        2 * bytes.len(),
        |i: int|
            if i % 2 == 0 {
                text::hex_digit((bytes[i / 2] / 16) as nat)
            } else {
                text::hex_digit((bytes[i / 2] % 16) as nat)
            },
    )
}

/// Writes bytes in lower-case hexadecimal.
pub fn hex_text(bytes: &[u8]) -> (r: String)
    ensures
        r@ == hex_of(bytes@),
{
    let mut written = String::new();
    let mut index: usize = 0;
    assert(written@ =~= hex_of(bytes@.take(0)));
    while index < bytes.len()
        invariant
            index <= bytes.len(),
            written@ == hex_of(bytes@.take(index as int)),
        decreases bytes.len() - index,
    {
        let byte = bytes[index];
        let ghost before = bytes@.take(index as int);
        let ghost after = bytes@.take(index + 1);
        written.push(hex_character(byte / 16));
        written.push(hex_character(byte % 16));
        proof {
            let expected = hex_of(before).push(text::hex_digit((byte / 16) as nat)).push(
                text::hex_digit((byte % 16) as nat),
            );
            assert forall|i: int| 0 <= i < expected.len() implies expected[i] == hex_of(
                after,
            )[i] by {
                if i < 2 * before.len() {
                    assert(before[i / 2] == after[i / 2]);
                } else {
                    assert(i / 2 == index);
                }
            }
            assert(expected =~= hex_of(after));
        }
        index += 1;
    }
    assert(bytes@.take(index as int) =~= bytes@);
    written
}

/// The value of a lower-case hexadecimal digit.
pub open spec fn hex_value(byte: u8) -> Option<u8> {
    if 48 <= byte <= 57 {
        Some((byte - 48) as u8)
    } else if 97 <= byte <= 102 {
        Some((byte - 87) as u8)
    } else {
        None
    }
}

fn decode_hex(byte: u8) -> (r: Option<u8>)
    ensures
        r == hex_value(byte),
        r matches Some(value) ==> value < 16,
{
    if 48 <= byte && byte <= 57 {
        Some(byte - 48)
    } else if 97 <= byte && byte <= 102 {
        Some(byte - 87)
    } else {
        None
    }
}

/// The digest that hexadecimal text stands for: exactly 64 lower-case digits.
pub open spec fn digest_of(encoded: Seq<u8>) -> Option<Seq<u8>> {
    if encoded.len() == SHA256_HEX_LENGTH && forall|i: int|
        0 <= i < encoded.len() ==> hex_value(#[trigger] encoded[i]) is Some {
        Some(
            Seq::new(
                32,
                |i: int|
                    (hex_value(encoded[2 * i])->0 * 16 + hex_value(encoded[2 * i + 1])->0) as u8,
            ),
        )
    } else {
        None
    }
}

impl ConfigHash {
    pub fn to_hex(&self) -> (r: String)
        ensures
            r@ == hex_of(self.0@),
            r@.len() == SHA256_HEX_LENGTH,
    {
        hex_text(self.0.as_slice())
    }

    /// Reads a digest from its hexadecimal text.
    pub fn from_hex(encoded: &str) -> (r: Option<ConfigHash>)
        ensures
            match digest_of(vstd::utf8::encode_utf8(encoded@)) {
                Some(digest) => r matches Some(hash) && hash.0@ == digest,
                None => r is None,
            },
    {
        let source = encoded.as_bytes();
        if source.len() != SHA256_HEX_LENGTH {
            return None;
        }
        let mut bytes: [u8; 32] = [0; 32];
        let mut index: usize = 0;
        while index < 32
            invariant
                index <= 32,
                source@.len() == SHA256_HEX_LENGTH,
                source@ == vstd::utf8::encode_utf8(encoded@),
                forall|i: int| 0 <= i < 2 * index ==> hex_value(#[trigger] source@[i]) is Some,
                forall|i: int|
                    0 <= i < index ==> #[trigger] bytes@[i] == (hex_value(source@[2 * i])->0 * 16
                        + hex_value(source@[2 * i + 1])->0) as u8,
            decreases 32 - index,
        {
            let high = match decode_hex(source[2 * index]) {
                Some(value) => value,
                None => {
                    assert(hex_value(source@[2 * index]) is None);
                    return None;
                },
            };
            let low = match decode_hex(source[2 * index + 1]) {
                Some(value) => value,
                None => {
                    assert(hex_value(source@[2 * index + 1]) is None);
                    return None;
                },
            };
            bytes[index] = high * 16 + low;
            index += 1;
        }
        assert(bytes@ =~= digest_of(source@)->0);
        Some(ConfigHash(bytes))
    }
}

/// A digest survives its hexadecimal text.
pub proof fn digests_survive_their_text(digest: Seq<u8>)
    requires
        digest.len() == 32,
    ensures
        digest_of(vstd::utf8::encode_utf8(hex_of(digest))) == Some(digest),
{
    let characters = hex_of(digest);
    assert forall|i: int| 0 <= i < characters.len() implies '\0' <= #[trigger] characters[i]
        <= '\u{7f}' by {}
    vstd::utf8::is_ascii_chars_encode_utf8(characters);
    let encoded = vstd::utf8::encode_utf8(characters);
    assert forall|i: int| 0 <= i < encoded.len() implies hex_value(#[trigger] encoded[i])
        == Some(if i % 2 == 0 { (digest[i / 2] / 16) as u8 } else { (digest[i / 2] % 16) as u8 }) by {
        assert(characters[i] as u8 == encoded[i]);
    }
    assert forall|i: int| 0 <= i < 32 implies #[trigger] digest_of(encoded)->0[i] == digest[i] by {
        assert(hex_value(encoded[2 * i]) == Some((digest[i] / 16) as u8));
        assert(hex_value(encoded[2 * i + 1]) == Some((digest[i] % 16) as u8));
    }
    assert(digest_of(encoded)->0 =~= digest);
}

/// The names and values of a list of entries.
pub open spec fn entry_texts(entries: Seq<(String, String)>) -> Seq<(Seq<char>, Seq<char>)> {
    entries.map_values(|entry: (String, String)| (entry.0@, entry.1@))
}

/// The values that a transport is configured with, as bytes: environment values
/// of a program, or header values of a request.
pub open spec fn transport_values(transport: TransportConfig) -> Seq<Seq<u8>> {
    let entries = match transport {
        TransportConfig::Stdio { command, args, env, cwd } => env@,
        TransportConfig::Http { url, headers } => headers@,
    };
    entries.map_values(|entry: (String, String)| vstd::utf8::encode_utf8(entry.1@))
}

/// The values that all servers are configured with.
pub open spec fn configured_values(servers: Seq<ServerDefinition>) -> Seq<Seq<u8>>
    decreases servers.len(),
{
    if servers.len() == 0 {
        Seq::empty()
    } else {
        configured_values(servers.drop_last()) + transport_values(servers.last().transport)
    }
}

/// A set of secrets with further values, of which empty ones are no secrets.
pub open spec fn with_values(secrets: Set<Seq<u8>>, values: Seq<Seq<u8>>) -> Set<Seq<u8>> {
    secrets.union(values.to_set().filter(|value: Seq<u8>| value.len() > 0))
}

/// Registers the configured values of a transport as secrets.
pub fn register_transport_secrets(secrets: &mut SecretSet, transport: &TransportConfig)
    requires
        old(secrets).wf(),
    ensures
        final(secrets).wf(),
        final(secrets)@ == with_values(old(secrets)@, transport_values(*transport)),
{
    let ghost before = secrets@;
    let ghost values = transport_values(*transport);
    let (entries, headers) = match transport {
        TransportConfig::Stdio { command: _, args: _, env, cwd: _ } => (env, false),
        TransportConfig::Http { url: _, headers } => (headers, true),
    };
    let mut index: usize = 0;
    assert(with_values(before, values.take(0)) =~= before);
    while index < entries.len()
        invariant
            index <= entries.len(),
            secrets.wf(),
            values == entries@.map_values(
                |entry: (String, String)| vstd::utf8::encode_utf8(entry.1@),
            ),
            secrets@ == with_values(before, values.take(index as int)),
        decreases entries.len() - index,
    {
        let name = entries[index].0.as_str();
        let value = entries[index].1.as_str().as_bytes();
        proof {
            assert(value@ == values[index as int]);
            lemma_with_value(before, values.take(index as int), value@);
            assert(values.take(index + 1) =~= values.take(index as int).push(value@));
        }
        if headers {
            let _ = secrets.register_header(name, value);
        } else {
            let _ = secrets.register_env(name, value);
        }
        index += 1;
    }
    assert(values.take(index as int) =~= values);
}

proof fn lemma_with_value(secrets: Set<Seq<u8>>, values: Seq<Seq<u8>>, value: Seq<u8>)
    ensures
        with_values(secrets, values.push(value)) == (if value.len() > 0 {
            with_values(secrets, values).insert(value)
        } else {
            with_values(secrets, values)
        }),
{
    let after = with_values(secrets, values.push(value));
    assert forall|s: Seq<u8>| after.contains(s) == (secrets.contains(s) || (s.len() > 0 && (
    values.contains(s) || s == value))) by {
        if values.push(value).contains(s) {
            let i = choose|i: int| 0 <= i < values.push(value).len() && values.push(value)[i] == s;
            if i < values.len() {
                assert(values[i] == s);
            }
        }
        if values.contains(s) {
            let i = choose|i: int| 0 <= i < values.len() && values[i] == s;
            assert(values.push(value)[i] == s);
        }
        assert(values.push(value)[values.len() as int] == value);
    }
    assert(after =~= (if value.len() > 0 {
        with_values(secrets, values).insert(value)
    } else {
        with_values(secrets, values)
    }));
}

proof fn lemma_with_more_values(
    secrets: Set<Seq<u8>>,
    values: Seq<Seq<u8>>,
    more: Seq<Seq<u8>>,
)
    ensures
        with_values(with_values(secrets, values), more) == with_values(secrets, values + more),
    decreases more.len(),
{
    if more.len() == 0 {
        assert(values + more =~= values);
        assert(with_values(with_values(secrets, values), more) =~= with_values(secrets, values));
    } else {
        let shorter = more.drop_last();
        lemma_with_more_values(secrets, values, shorter);
        assert(more =~= shorter.push(more.last()));
        assert(values + more =~= (values + shorter).push(more.last()));
        lemma_with_value(with_values(secrets, values), shorter, more.last());
        lemma_with_value(secrets, values + shorter, more.last());
    }
}

/// All secrets of a configuration: those that were found while it was loaded,
/// and the configured values of every server.
pub fn configured_secrets(loaded: &SecretSet, servers: &[ServerDefinition]) -> (r: SecretSet)
    requires
        loaded.wf(),
    ensures
        r.wf(),
        r@ == with_values(loaded@, configured_values(servers@)),
{
    let mut secrets = loaded.duplicate();
    let mut index: usize = 0;
    assert(with_values(loaded@, configured_values(servers@.take(0))) =~= loaded@);
    while index < servers.len()
        invariant
            index <= servers.len(),
            secrets.wf(),
            secrets@ == with_values(loaded@, configured_values(servers@.take(index as int))),
        decreases servers.len() - index,
    {
        register_transport_secrets(&mut secrets, &servers[index].transport);
        proof {
            lemma_with_more_values(
                loaded@,
                configured_values(servers@.take(index as int)),
                transport_values(servers@[index as int].transport),
            );
            assert(servers@.take(index + 1).drop_last() =~= servers@.take(index as int));
        }
        index += 1;
    }
    assert(servers@.take(index as int) =~= servers@);
    secrets
}

/// Whether a value is configured for a server: some environment entry of a
/// program or some header of a service holds it, whatever the entry is named.
pub open spec fn holds_value(transport: TransportConfig, value: Seq<u8>) -> bool {
    match transport {
        TransportConfig::Stdio { command, args, env, cwd } => exists|j: int|
            0 <= j < env@.len() && vstd::utf8::encode_utf8((#[trigger] env@[j]).1@) == value,
        TransportConfig::Http { url, headers } => exists|j: int|
            0 <= j < headers@.len() && vstd::utf8::encode_utf8((#[trigger] headers@[j]).1@)
                == value,
    }
}

/// The values of a transport are those of its entries.
pub proof fn lemma_transport_values(transport: TransportConfig, value: Seq<u8>)
    ensures
        transport_values(transport).contains(value) <==> holds_value(transport, value),
{
    let entries = match transport {
        TransportConfig::Stdio { command, args, env, cwd } => env@,
        TransportConfig::Http { url, headers } => headers@,
    };
    let values = transport_values(transport);
    assert(values.len() == entries.len());
    assert forall|j: int| 0 <= j < entries.len() implies #[trigger] values[j]
        == vstd::utf8::encode_utf8(entries[j].1@) by {}
    if values.contains(value) {
        let j = choose|j: int| 0 <= j < values.len() && values[j] == value;
        assert(vstd::utf8::encode_utf8(entries[j].1@) == value);
    }
    if holds_value(transport, value) {
        let j = choose|j: int|
            0 <= j < entries.len() && vstd::utf8::encode_utf8((#[trigger] entries[j]).1@) == value;
        assert(values[j] == value);
    }
}

proof fn lemma_configured_values(servers: Seq<ServerDefinition>, value: Seq<u8>)
    ensures
        configured_values(servers).contains(value) <==> exists|i: int|
            0 <= i < servers.len() && holds_value((#[trigger] servers[i]).transport, value),
    decreases servers.len(),
{
    if servers.len() > 0 {
        let earlier = servers.drop_last();
        lemma_configured_values(earlier, value);
        lemma_transport_values(servers.last().transport, value);
        let left = configured_values(earlier);
        let right = transport_values(servers.last().transport);
        let both = left + right;
        if both.contains(value) {
            let k = choose|k: int| 0 <= k < both.len() && both[k] == value;
            if k < left.len() {
                assert(left[k] == value);
                let i = choose|i: int|
                    0 <= i < earlier.len() && holds_value((#[trigger] earlier[i]).transport, value);
                assert(servers[i] == earlier[i]);
            } else {
                assert(right[k - left.len()] == value);
                assert(holds_value(servers[servers.len() - 1].transport, value));
            }
        }
        if exists|i: int|
            0 <= i < servers.len() && holds_value((#[trigger] servers[i]).transport, value) {
            let i = choose|i: int|
                0 <= i < servers.len() && holds_value((#[trigger] servers[i]).transport, value);
            if i < earlier.len() {
                assert(earlier[i] == servers[i]);
                let k = choose|k: int| 0 <= k < left.len() && left[k] == value;
                assert(both[k] == value);
            } else {
                let k = choose|k: int| 0 <= k < right.len() && right[k] == value;
                assert(both[left.len() + k] == value);
            }
        }
    }
}

/// Every value that a server is configured with is a secret, whatever its name
/// and wherever it stands: environment values of a program and header values of
/// a service, except empty ones. What was secret before stays secret, and
/// nothing else becomes one.
pub proof fn configured_values_are_secret(
    loaded: &SecretSet,
    servers: &[ServerDefinition],
    secrets: SecretSet,
)
    requires
        call_ensures(configured_secrets, (loaded, servers), secrets),
    ensures
        forall|i: int, j: int|
            #![trigger servers@[i], entry_of(servers@[i].transport, j)]
            0 <= i < servers@.len() && 0 <= j < entry_count(servers@[i].transport)
                && vstd::utf8::encode_utf8(entry_of(servers@[i].transport, j).1@).len() > 0
                ==> secrets@.contains(
                vstd::utf8::encode_utf8(entry_of(servers@[i].transport, j).1@),
            ),
        forall|value: Seq<u8>| #[trigger] loaded@.contains(value) ==> secrets@.contains(value),
        forall|value: Seq<u8>| #[trigger]
            secrets@.contains(value) ==> loaded@.contains(value) || (value.len() > 0 && exists|i: int|
                0 <= i < servers@.len() && holds_value((#[trigger] servers@[i]).transport, value)),
{
    assert forall|i: int, j: int|
        #![trigger servers@[i], entry_of(servers@[i].transport, j)]
        0 <= i < servers@.len() && 0 <= j < entry_count(servers@[i].transport)
            && vstd::utf8::encode_utf8(
            entry_of(servers@[i].transport, j).1@,
        ).len() > 0 implies secrets@.contains(
        vstd::utf8::encode_utf8(entry_of(servers@[i].transport, j).1@),
    ) by {
        let value = vstd::utf8::encode_utf8(entry_of(servers@[i].transport, j).1@);
        assert(holds_value(servers@[i].transport, value));
        lemma_configured_values(servers@, value);
    }
    assert forall|value: Seq<u8>| #[trigger] secrets@.contains(value) implies loaded@.contains(
        value,
    ) || (value.len() > 0 && exists|i: int|
        0 <= i < servers@.len() && holds_value((#[trigger] servers@[i]).transport, value)) by {
        lemma_configured_values(servers@, value);
    }
}

/// One entry of a transport: an environment entry or a header.
pub open spec fn entry_of(transport: TransportConfig, j: int) -> (String, String) {
    match transport {
        TransportConfig::Stdio { command, args, env, cwd } => env@[j],
        TransportConfig::Http { url, headers } => headers@[j],
    }
}

/// The number of environment entries or headers of a transport.
pub open spec fn entry_count(transport: TransportConfig) -> int {
    match transport {
        TransportConfig::Stdio { command, args, env, cwd } => env@.len() as int,
        TransportConfig::Http { url, headers } => headers@.len() as int,
    }
}

/// A lower-case hexadecimal digit with its value.
pub open spec fn is_hex_digit(digit: int, value: int) -> bool {
    ||| 48 <= digit <= 57 && value == digit - 48
    ||| 97 <= digit <= 102 && value == digit - 87
}

/// A byte is written as two digits, the higher one first.
pub proof fn bytes_are_written_as_two_digits(bytes: &[u8], r: String, i: int)
    requires
        call_ensures(hex_text, (bytes,), r),
        0 <= i < bytes@.len(),
    ensures
        r@.len() == 2 * bytes@.len(),
        is_hex_digit(r@[2 * i] as int, (bytes@[i] / 16) as int),
        is_hex_digit(r@[2 * i + 1] as int, (bytes@[i] % 16) as int),
{
    assert((2 * i) / 2 == i && (2 * i + 1) / 2 == i && (2 * i) % 2 == 0 && (2 * i + 1) % 2 == 1);
}

/// A digest is read from exactly sixty-four digits, two for each byte.
pub proof fn digests_are_read_from_two_digits_each(encoded: Seq<u8>, i: int)
    ensures
        digest_of(encoded) is Some <==> encoded.len() == 64 && forall|k: int|
            0 <= k < 64 ==> 48 <= #[trigger] encoded[k] <= 57 || 97 <= encoded[k] <= 102,
        digest_of(encoded) matches Some(digest) ==> digest.len() == 32 && (0 <= i < 32
            ==> is_hex_digit(encoded[2 * i] as int, (digest[i] / 16) as int) && is_hex_digit(
            encoded[2 * i + 1] as int,
            (digest[i] % 16) as int,
        )),
{
    if let Some(digest) = digest_of(encoded) {
        assert forall|k: int| 0 <= k < 64 implies 48 <= #[trigger] encoded[k] <= 57 || 97
            <= encoded[k] <= 102 by {
            assert(hex_value(encoded[k]) is Some);
        }
        if 0 <= i < 32 {
            assert(hex_value(encoded[2 * i]) is Some);
            assert(hex_value(encoded[2 * i + 1]) is Some);
        }
    }
    if encoded.len() == 64 && forall|k: int|
        0 <= k < 64 ==> 48 <= #[trigger] encoded[k] <= 57 || 97 <= encoded[k] <= 102 {
        assert forall|k: int| 0 <= k < encoded.len() implies hex_value(#[trigger] encoded[k])
            is Some by {}
    }
}

} // verus!
