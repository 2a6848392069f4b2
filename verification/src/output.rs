//! Business-output and diagnostic presentation boundary.

use vstd::prelude::*;

use crate::domain;
use crate::domain::{
    CommandOutcome, PerServer, SearchHit, ServerSnapshot, ToolInfo, ToolResult, TransportSummary,
};
use crate::error;
use crate::error::{CliError, ErrorKind};
use crate::json;
use crate::json::{Json, JsonValue};
use crate::order;
use crate::order::{sorted_refs, Ranked};
use crate::policy::redact;
use crate::policy::redact::{append_bytes, SecretSet, WriterDiagnosticSink};
use crate::text;
use crate::text::{byte_order, chars_of, decimal_text, join, str_equal, string_of, text_order};

verus! {

/// Styling inputs are computed independently for each output stream.
#[derive(Clone, Copy, Debug, PartialEq, Eq, Structural)]
pub struct StylePolicy {
    pub is_tty: bool,
    /// True when `NO_COLOR` is present, regardless of its value.
    pub no_color: bool,
}

impl StylePolicy {
    pub fn new(is_tty: bool, no_color_present: bool) -> (r: Self)
        ensures
            r == (StylePolicy { is_tty, no_color: no_color_present }),
    {
        StylePolicy { is_tty, no_color: no_color_present }
    }

    pub fn plain() -> (r: Self)
        ensures
            r == (StylePolicy { is_tty: false, no_color: false }),
    {
        StylePolicy::new(false, false)
    }

    pub fn allows_ansi(self) -> (r: bool)
        ensures
            r == (self.is_tty && !self.no_color),
    {
        self.is_tty && !self.no_color
    }
}

impl Default for StylePolicy {
    /// The policy of a stream that is no terminal.
    fn default() -> (r: Self)
        ensures
            r == (StylePolicy { is_tty: false, no_color: false }),
    {
        StylePolicy::plain()
    }
}

/// A diagnostics boundary kept separate from business output.
pub trait DiagnosticSink {
    /// The sink can take diagnostics.
    open spec fn ready(&self) -> bool {
        true
    }

    fn warning(&mut self, message: &str)
        requires
            old(self).ready(),
        ensures
            final(self).ready(),
    ;

    fn debug(&mut self, message: &str)
        requires
            old(self).ready(),
        ensures
            final(self).ready(),
    ;

    fn server_stderr(&mut self, server: &str, bytes: &[u8])
        requires
            old(self).ready(),
        ensures
            final(self).ready(),
    ;

    /// Flushes bytes retained to detect secrets spanning server stderr chunks. A
    /// sink that retains none has nothing to do.
    fn server_stderr_flush(&mut self, server: &str)
        requires
            old(self).ready(),
        ensures
            final(self).ready(),
    {
        let _ = server;
    }
}

/// Independently computed policies for the two process output streams.
#[derive(Clone, Copy, Debug, PartialEq, Eq, Structural)]
pub struct StreamStylePolicies {
    pub stdout: StylePolicy,
    pub stderr: StylePolicy,
}

impl StreamStylePolicies {
    pub fn new(stdout_is_tty: bool, stderr_is_tty: bool, no_color_present: bool) -> (r: Self)
        ensures
            r.stdout == (StylePolicy { is_tty: stdout_is_tty, no_color: no_color_present }),
            r.stderr == (StylePolicy { is_tty: stderr_is_tty, no_color: no_color_present }),
    {
        StreamStylePolicies {
            stdout: StylePolicy::new(stdout_is_tty, no_color_present),
            stderr: StylePolicy::new(stderr_is_tty, no_color_present),
        }
    }
}

pub const ANSI_RESET: &'static str = "\x1b[0m";

pub const ANSI_CYAN_BOLD: &'static str = "\x1b[1;36m";

pub const ANSI_YELLOW: &'static str = "\x1b[33m";

pub const ANSI_MAGENTA: &'static str = "\x1b[35m";

pub const ANSI_RED_BOLD: &'static str = "\x1b[1;31m";

/// A fragment wrapped in an escape sequence and a reset where the policy allows
/// it; an empty fragment stays empty.
pub open spec fn styled(fragment: Seq<char>, ansi: Seq<char>, policy: StylePolicy) -> Seq<char> {
    if policy.is_tty && !policy.no_color && fragment.len() > 0 {
        ansi + fragment + ANSI_RESET@
    } else {
        fragment
    }
}

/// Styles one already-formatted semantic fragment without changing its text.
pub fn style_fragment(fragment: &str, ansi: &str, policy: StylePolicy) -> (r: String)
    ensures
        r@ == styled(fragment@, ansi@, policy),
{
    if policy.allows_ansi() && chars_of(fragment).len() > 0 {
        let mut styled = ansi.to_owned();
        styled.append(fragment);
        styled.append(ANSI_RESET);
        styled
    } else {
        fragment.to_owned()
    }
}

/// The lines of a structured error.
pub open spec fn structured_error(failure: error::ErrorContent, style: StylePolicy) -> Seq<char> {
    styled("Error ["@ + error::kind_text(failure.kind) + "]:"@, ANSI_RED_BOLD@, style) + " "@
        + failure.message + (match failure.details {
        Some(details) => "\n  Details: "@ + details,
        None => Seq::empty(),
    }) + (match failure.suggestion {
        Some(suggestion) => "\n  Suggestion: "@ + suggestion,
        None => Seq::empty(),
    }) + "\n"@
}

/// Renders one stable user-facing structured error.
///
/// The renderer owns neither process termination nor exit code selection; the
/// process boundary remains responsible for both.
pub fn render_structured_error(failure: &CliError) -> (r: String)
    ensures
        r@ == structured_error(failure@, (StylePolicy { is_tty: false, no_color: false })),
{
    render_structured_error_with_style(failure, StylePolicy::plain())
}

/// Renders a structured error using the policy of its actual destination
/// stream. ANSI wraps only the semantic error heading; all text is identical
/// after ANSI removal.
pub fn render_structured_error_with_style(failure: &CliError, style: StylePolicy) -> (r: String)
    ensures
        r@ == structured_error(failure@, style),
{
    let mut heading = "Error [".to_owned();
    heading.append(failure.machine_kind());
    heading.append("]:");
    let mut rendered = style_fragment(heading.as_str(), ANSI_RED_BOLD, style);
    rendered.append(" ");
    rendered.append(failure.display_text());
    let ghost before = rendered@;
    match failure.details_text() {
        Some(details) => {
            rendered.append("\n  Details: ");
            rendered.append(details);
            assert(rendered@ =~= before + ("\n  Details: "@ + details@));
        },
        None => {
            assert(rendered@ =~= before + Seq::<char>::empty());
        },
    }
    let ghost before = rendered@;
    match failure.suggestion_text() {
        Some(suggestion) => {
            rendered.append("\n  Suggestion: ");
            rendered.append(suggestion);
            assert(rendered@ =~= before + ("\n  Suggestion: "@ + suggestion@));
        },
        None => {
            assert(rendered@ =~= before + Seq::<char>::empty());
        },
    }
    rendered.append("\n");
    rendered
}

/// Text in which every line break (`\r\n`, `\r` or `\n`) is `replacement`.
pub open spec fn with_breaks(source: Seq<char>, replacement: char) -> Seq<char>
    decreases source.len(),
{
    if source.len() == 0 {
        Seq::empty()
    } else {
        let before = with_breaks(source.drop_last(), replacement);
        if source.last() == '\n' && source.len() > 1 && source[source.len() - 2] == '\r' {
            before
        } else if source.last() == '\r' || source.last() == '\n' {
            before.push(replacement)
        } else {
            before.push(source.last())
        }
    }
}

/// The lines of a text; line feeds separate them.
pub open spec fn lines_of(source: Seq<char>) -> Seq<Seq<char>>
    decreases source.len(),
{
    if source.len() == 0 {
        seq![Seq::empty()]
    } else {
        let before = lines_of(source.drop_last());
        if source.last() == '\n' {
            before.push(Seq::empty())
        } else {
            before.drop_last().push(before.last().push(source.last()))
        }
    }
}

/// Text without the line feeds at its end.
pub open spec fn without_final_feeds(source: Seq<char>) -> Seq<char>
    decreases source.len(),
{
    if source.len() > 0 && source.last() == '\n' {
        without_final_feeds(source.drop_last())
    } else {
        source
    }
}

/// Text without the carriage returns and line feeds at its end.
pub open spec fn without_final_breaks(source: Seq<char>) -> Seq<char>
    decreases source.len(),
{
    if source.len() > 0 && (source.last() == '\n' || source.last() == '\r') {
        without_final_breaks(source.drop_last())
    } else {
        source
    }
}

/// The lines of a text block, each with the indentation in front of it. Line
/// breaks at the end of the block are dropped.
pub open spec fn block_lines(source: Seq<char>, indentation: Seq<char>) -> Seq<Seq<char>> {
    lines_of(without_final_feeds(with_breaks(source, '\n'))).map_values(
        |line: Seq<char>| indentation + line,
    )
}

/// The lines as one text that ends in exactly one line feed.
pub open spec fn finished(lines: Seq<Seq<char>>) -> Seq<char> {
    without_final_breaks(text::joined(lines, "\n"@)).push('\n')
}

fn replace_breaks(source: &Vec<char>, replacement: char) -> (r: Vec<char>)
    ensures
        r@ == with_breaks(source@, replacement),
{
    let mut result: Vec<char> = Vec::new();
    let mut index: usize = 0;
    while index < source.len()
        invariant
            index <= source.len(),
            result@ == with_breaks(source@.take(index as int), replacement),
        decreases source.len() - index,
    {
        let c = source[index];
        proof {
            let seen = source@.take(index + 1);
            assert(seen.drop_last() =~= source@.take(index as int));
            assert(seen.last() == c);
            if index > 0 {
                assert(seen[seen.len() - 2] == source@[index - 1]);
            }
        }
        let second_half = c == '\n' && index > 0 && source[index - 1] == '\r';
        if !second_half {
            if c == '\r' || c == '\n' {
                result.push(replacement);
            } else {
                result.push(c);
            }
        }
        index += 1;
    }
    assert(source@.take(index as int) =~= source@);
    result
}

fn single_line(source: &str) -> (r: String)
    ensures
        r@ == with_breaks(source@, ' '),
{
    string_of(&replace_breaks(&chars_of(source), ' '))
}

fn push_block(lines: &mut Vec<String>, source: &str, indentation: &str)
    ensures
        text::texts(final(lines)@) == text::texts(old(lines)@) + block_lines(
            source@,
            indentation@,
        ),
{
    let ghost before = text::texts(lines@);
    let mut normalized = replace_breaks(&chars_of(source), '\n');
    let ghost whole = normalized@;
    while normalized.len() > 0 && normalized[normalized.len() - 1] == '\n'
        invariant
            without_final_feeds(normalized@) == without_final_feeds(whole),
        decreases normalized.len(),
    {
        let ghost longer = normalized@;
        let _ = normalized.pop();
        assert(normalized@ =~= longer.drop_last());
    }
    let ghost block = normalized@;
    let ghost split = lines_of(block);
    let mut current = String::new();
    let mut index: usize = 0;
    let ghost mut complete: Seq<Seq<char>> = Seq::empty();
    let ghost add = |line: Seq<char>| indentation@ + line;
    assert(before + complete.map_values(add) =~= before);
    assert(complete.push(current@) =~= lines_of(block.take(0)));
    while index < normalized.len()
        invariant
            block == normalized@,
            index <= normalized.len(),
            add == (|line: Seq<char>| indentation@ + line),
            complete.push(current@) == lines_of(block.take(index as int)),
            text::texts(lines@) == before + complete.map_values(add),
        decreases normalized.len() - index,
    {
        let c = normalized[index];
        proof {
            assert(block.take(index + 1).drop_last() =~= block.take(index as int));
            assert(complete.push(current@).drop_last() =~= complete);
        }
        if c == '\n' {
            let ghost old_lines = text::texts(lines@);
            let ghost finished_line = current@;
            let mut line = indentation.to_owned();
            line.append(current.as_str());
            lines.push(line);
            current = String::new();
            proof {
                let grown = complete.push(finished_line);
                assert(grown.map_values(add) =~= complete.map_values(add).push(
                    indentation@ + finished_line,
                ));
                complete = grown;
                assert(text::texts(lines@) =~= old_lines.push(indentation@ + finished_line));
                assert(text::texts(lines@) =~= before + complete.map_values(add));
                assert(complete.push(current@) =~= lines_of(block.take(index + 1)));
            }
        } else {
            current.push(c);
        }
        index += 1;
    }
    assert(block.take(index as int) =~= block);
    let ghost old_lines = text::texts(lines@);
    let ghost finished_line = current@;
    let mut line = indentation.to_owned();
    line.append(current.as_str());
    lines.push(line);
    proof {
        assert(text::texts(lines@) =~= old_lines.push(indentation@ + finished_line));
        assert(split.map_values(add) =~= complete.map_values(add).push(
            indentation@ + finished_line,
        ));
        assert(text::texts(lines@) =~= before + split.map_values(add));
    }
}

fn finish_lines(lines: &Vec<String>) -> (r: String)
    ensures
        r@ == finished(text::texts(lines@)),
{
    let joined = join(lines.as_slice(), "\n");
    let mut characters = chars_of(joined.as_str());
    while characters.len() > 0 && (characters[characters.len() - 1] == '\n'
        || characters[characters.len() - 1] == '\r')
        invariant
            without_final_breaks(characters@) == without_final_breaks(joined@),
        decreases characters.len(),
    {
        let ghost longer = characters@;
        let _ = characters.pop();
        assert(characters@ =~= longer.drop_last());
    }
    characters.push('\n');
    string_of(&characters)
}

proof fn lemma_finished_end(source: Seq<char>)
    ensures
        without_final_breaks(source).len() > 0 ==> without_final_breaks(source).last() != '\n'
            && without_final_breaks(source).last() != '\r',
    decreases source.len(),
{
    if source.len() > 0 && (source.last() == '\n' || source.last() == '\r') {
        lemma_finished_end(source.drop_last());
    }
}

/// Finished text ends in exactly one line feed, with no other line break
/// before it.
pub proof fn finished_text_has_one_trailing_newline(lines: Seq<Seq<char>>)
    ensures
        finished(lines).len() > 0,
        finished(lines).last() == '\n',
        finished(lines).len() > 1 ==> finished(lines)[finished(lines).len() - 2] != '\n' && finished(
            lines,
        )[finished(lines).len() - 2] != '\r',
{
    lemma_finished_end(text::joined(lines, "\n"@));
}


/// Optional strings in order: a missing one comes first.
pub open spec fn optional_before(left: Option<Seq<char>>, right: Option<Seq<char>>) -> bool {
    match (left, right) {
        (None, None) => false,
        (None, Some(_)) => true,
        (Some(_), None) => false,
        (Some(a), Some(b)) => text::text_before(a, b),
    }
}

/// Tools in order of name, description and schema text.
pub open spec fn tool_before(left: ToolInfo, right: ToolInfo) -> bool {
    if left.name@ != right.name@ {
        text::text_before(left.name@, right.name@)
    } else if text::optional(left.description) != text::optional(right.description) {
        optional_before(text::optional(left.description), text::optional(right.description))
    } else {
        text::bytes_before(
            json::json_text(left.input_schema@),
            json::json_text(right.input_schema@),
        )
    }
}

impl Ranked for ToolInfo {
    open spec fn ranks_before(&self, other: &Self) -> bool {
        tool_before(*self, *other)
    }

    fn is_before(&self, other: &Self) -> bool {
        if !str_equal(self.name.as_str(), other.name.as_str()) {
            return text_order(self.name.as_str(), other.name.as_str());
        }
        match (&self.description, &other.description) {
            (Some(left), Some(right)) => {
                if !str_equal(left.as_str(), right.as_str()) {
                    return text_order(left.as_str(), right.as_str());
                }
            },
            (None, Some(_)) => {
                return true;
            },
            (Some(_), None) => {
                return false;
            },
            (None, None) => {},
        }
        byte_order(
            self.input_schema.to_text().as_slice(),
            other.input_schema.to_text().as_slice(),
        )
    }
}

/// Results in order of their servers; a success comes before a failure.
impl Ranked for PerServer<ServerSnapshot> {
    open spec fn ranks_before(&self, other: &Self) -> bool {
        if domain::server_of(*self) != domain::server_of(*other) {
            text::text_before(domain::server_of(*self), domain::server_of(*other))
        } else {
            self is Success && other is Failure
        }
    }

    fn is_before(&self, other: &Self) -> bool {
        if !str_equal(self.server(), other.server()) {
            return text_order(self.server(), other.server());
        }
        matches!((self, other), (PerServer::Success { .. }, PerServer::Failure { .. }))
    }
}

/// Hits in order of server and tool.
impl Ranked for SearchHit {
    open spec fn ranks_before(&self, other: &Self) -> bool {
        if self.server@ != other.server@ {
            text::text_before(self.server@, other.server@)
        } else {
            tool_before(self.tool, other.tool)
        }
    }

    fn is_before(&self, other: &Self) -> bool {
        if !str_equal(self.server.as_str(), other.server.as_str()) {
            return text_order(self.server.as_str(), other.server.as_str());
        }
        self.tool.is_before(&other.tool)
    }
}

proof fn lemma_optional_order(a: Option<Seq<char>>, b: Option<Seq<char>>, c: Option<Seq<char>>)
    ensures
        a == b || optional_before(a, b) || optional_before(b, a),
        !(optional_before(a, b) && optional_before(b, a)),
        optional_before(a, b) && optional_before(b, c) ==> optional_before(a, c),
{
    if let (Some(x), Some(y)) = (a, b) {
        text::lemma_text_before_total(x, y);
        if let Some(z) = c {
            if text::text_before(x, y) && text::text_before(y, z) {
                text::lemma_text_before_transitive(x, y, z);
            }
        }
    }
}

proof fn lemma_tool_order(a: ToolInfo, b: ToolInfo, c: ToolInfo)
    ensures
        tool_before(a, b) ==> !tool_before(b, a),
        tool_before(a, c) ==> tool_before(a, b) || tool_before(b, c),
{
    let (x, y, z) = (a.name@, b.name@, c.name@);
    text::lemma_text_before_total(x, y);
    text::lemma_text_before_total(y, z);
    text::lemma_text_before_total(x, z);
    if text::text_before(y, x) && text::text_before(x, z) {
        text::lemma_text_before_transitive(y, x, z);
    }
    let (d, e, f) = (
        text::optional(a.description),
        text::optional(b.description),
        text::optional(c.description),
    );
    lemma_optional_order(d, e, f);
    lemma_optional_order(e, d, f);
    lemma_optional_order(e, f, d);
    let (p, q, r) = (
        json::json_text(a.input_schema@),
        json::json_text(b.input_schema@),
        json::json_text(c.input_schema@),
    );
    text::lemma_bytes_before_asymmetric(p, q);
    text::lemma_bytes_before_asymmetric(q, r);
    if text::bytes_before(q, p) && text::bytes_before(p, r) {
        text::lemma_bytes_before_transitive(q, p, r);
    }
    if text::text_before(y, z) && text::text_before(z, x) {
        text::lemma_text_before_transitive(y, z, x);
    }
}

/// Tools are listed in order of name, description and schema, and none is
/// added or lost.
pub proof fn tools_are_listed_in_order(tools: Seq<ToolInfo>)
    ensures
        order::in_order(order::stable_sort(tools)),
        order::stable_sort(tools).to_multiset() == tools.to_multiset(),
{
    assert forall|a: ToolInfo, b: ToolInfo| #[trigger] a.ranks_before(&b) implies !b.ranks_before(
        &a,
    ) by {
        lemma_tool_order(a, b, b);
    }
    assert forall|a: ToolInfo, b: ToolInfo, c: ToolInfo|
        #![trigger a.ranks_before(&c), b.ranks_before(&c)]
        #![trigger a.ranks_before(&c), b.ranks_before(&a)]
        a.ranks_before(&c) implies a.ranks_before(&b) || b.ranks_before(&c) by {
        lemma_tool_order(a, b, c);
    }
    order::stable_sort_is_in_order(tools);
    order::stable_sort_is_a_permutation(tools);
}

proof fn lemma_hit_order()
    ensures
        order::strict_weak_order::<SearchHit>(),
{
    assert forall|a: SearchHit, b: SearchHit| #[trigger] a.ranks_before(&b) implies !b.ranks_before(
        &a,
    ) by {
        lemma_tool_order(a.tool, b.tool, b.tool);
        text::lemma_text_before_total(a.server@, b.server@);
    }
    assert forall|a: SearchHit, b: SearchHit, c: SearchHit|
        #![trigger a.ranks_before(&c), b.ranks_before(&c)]
        #![trigger a.ranks_before(&c), b.ranks_before(&a)]
        a.ranks_before(&c) implies a.ranks_before(&b) || b.ranks_before(&c) by {
        lemma_tool_order(a.tool, b.tool, c.tool);
        let (x, y, z) = (a.server@, b.server@, c.server@);
        text::lemma_text_before_total(x, y);
        text::lemma_text_before_total(y, z);
        if text::text_before(y, x) && text::text_before(x, z) {
            text::lemma_text_before_transitive(y, x, z);
        }
    }
}

/// Hits are listed in order of server and tool, and none is added or lost.
pub proof fn hits_are_listed_in_order(hits: Seq<SearchHit>)
    ensures
        order::in_order(order::stable_sort(hits)),
        order::stable_sort(hits).to_multiset() == hits.to_multiset(),
{
    lemma_hit_order();
    order::stable_sort_is_in_order(hits);
    order::stable_sort_is_a_permutation(hits);
}

/// Servers are listed in order of their names, and none is added or lost.
pub proof fn servers_are_listed_in_order(results: Seq<PerServer<ServerSnapshot>>)
    ensures
        order::in_order(order::stable_sort(results)),
        order::stable_sort(results).to_multiset() == results.to_multiset(),
{
    assert forall|a: PerServer<ServerSnapshot>, b: PerServer<ServerSnapshot>| #[trigger]
        a.ranks_before(&b) implies !b.ranks_before(&a) by {
        text::lemma_text_before_total(domain::server_of(a), domain::server_of(b));
    }
    assert forall|
        a: PerServer<ServerSnapshot>,
        b: PerServer<ServerSnapshot>,
        c: PerServer<ServerSnapshot>,
    |
        #![trigger a.ranks_before(&c), b.ranks_before(&c)]
        #![trigger a.ranks_before(&c), b.ranks_before(&a)]
        a.ranks_before(&c) implies a.ranks_before(&b) || b.ranks_before(&c) by {
        let (x, y, z) = (domain::server_of(a), domain::server_of(b), domain::server_of(c));
        text::lemma_text_before_total(x, y);
        text::lemma_text_before_total(y, z);
        if text::text_before(y, x) && text::text_before(x, z) {
            text::lemma_text_before_transitive(y, x, z);
        }
    }
    order::stable_sort_is_in_order(results);
    order::stable_sort_is_a_permutation(results);
}

/// A description behind a dash on the same line, where it is wanted and there
/// is one.
pub open spec fn described(description: Option<Seq<char>>, with_descriptions: bool) -> Seq<char> {
    match description {
        Some(source) => if with_descriptions {
            " - "@ + with_breaks(source, ' ')
        } else {
            Seq::empty()
        },
        None => Seq::empty(),
    }
}

fn push_description(line: &mut String, description: Option<&str>, with_descriptions: bool)
    ensures
        final(line)@ == old(line)@ + described(
            match description {
                Some(source) => Some(source@),
                None => None,
            },
            with_descriptions,
        ),
{
    let ghost before = line@;
    if with_descriptions {
        if let Some(source) = description {
            line.append(" - ");
            line.append(single_line(source).as_str());
            assert(line@ =~= before + (" - "@ + with_breaks(source@, ' ')));
        } else {
            assert(line@ =~= before + Seq::<char>::empty());
        }
    } else {
        assert(line@ =~= before + Seq::<char>::empty());
    }
}

fn optional_str(source: &Option<String>) -> (r: Option<&str>)
    ensures
        r is Some <==> source is Some,
        r matches Some(s) ==> text::optional(*source) == Some(s@),
{
    match source {
        Some(s) => Some(s.as_str()),
        None => None,
    }
}

/// One tool in the compact list view.
pub open spec fn tool_line(tool: ToolInfo, with_descriptions: bool) -> Seq<char> {
    "  • "@ + tool.name@ + described(text::optional(tool.description), with_descriptions)
}

/// The lines of one server in the compact list view.
pub open spec fn snapshot_lines(
    server: Seq<char>,
    tools: Seq<ToolInfo>,
    with_descriptions: bool,
) -> Seq<Seq<char>> {
    if tools.len() == 0 {
        seq![server, "  (no tools)"@]
    } else {
        seq![server] + order::stable_sort(tools).map_values(
            |tool: ToolInfo| tool_line(tool, with_descriptions),
        )
    }
}

proof fn lemma_sort_length<T: Ranked>(items: Seq<T>)
    ensures
        order::stable_sort(items).len() == items.len(),
{
    order::stable_sort_is_a_permutation(items);
    order::stable_sort(items).to_multiset_ensures();
    items.to_multiset_ensures();
}

fn push_snapshot(
    lines: &mut Vec<String>,
    server: &str,
    snapshot: &ServerSnapshot,
    with_descriptions: bool,
)
    ensures
        text::texts(final(lines)@) == text::texts(old(lines)@) + snapshot_lines(
            server@,
            snapshot.tools@,
            with_descriptions,
        ),
{
    let ghost before = text::texts(lines@);
    let tools = sorted_refs(snapshot.tools.as_slice());
    let ghost sorted = order::stable_sort(snapshot.tools@);
    proof {
        lemma_sort_length(snapshot.tools@);
    }
    lines.push(server.to_owned());
    assert(text::texts(lines@) =~= before.push(server@));
    if tools.len() == 0 {
        lines.push("  (no tools)".to_owned());
        assert(text::texts(lines@) =~= before + seq![server@, "  (no tools)"@]);
        return;
    }
    let ghost format = |tool: ToolInfo| tool_line(tool, with_descriptions);
    let mut index: usize = 0;
    assert(before.push(server@) =~= before + (seq![server@] + sorted.take(0).map_values(format)));
    while index < tools.len()
        invariant
            index <= tools.len(),
            order::targets(tools@) == sorted,
            format == (|tool: ToolInfo| tool_line(tool, with_descriptions)),
            text::texts(lines@) == before + (seq![server@] + sorted.take(index as int).map_values(
                format,
            )),
        decreases tools.len() - index,
    {
        let tool = tools[index];
        assert(sorted[index as int] == *tool);
        let mut line = "  • ".to_owned();
        line.append(tool.name.as_str());
        push_description(&mut line, optional_str(&tool.description), with_descriptions);
        assert(line@ =~= tool_line(*tool, with_descriptions));
        let ghost old_lines = text::texts(lines@);
        let ghost added = line@;
        lines.push(line);
        proof {
            assert(text::texts(lines@) =~= old_lines.push(added));
            assert(sorted.take(index + 1).map_values(format) =~= sorted.take(
                index as int,
            ).map_values(format).push(added));
            assert(text::texts(lines@) =~= before + (seq![server@] + sorted.take(
                index + 1,
            ).map_values(format)));
        }
        index += 1;
    }
    assert(sorted.take(index as int) =~= sorted);
}

/// Formats one server snapshot for the compact list view.
///
/// Tool order is derived from tool names rather than transport completion order.
/// The formatter never adds ANSI escapes and always returns exactly one trailing
/// newline.
pub fn format_server_snapshot(snapshot: &ServerSnapshot, with_descriptions: bool) -> (r: String)
    ensures
        r@ == finished(
            snapshot_lines(snapshot.server@, snapshot.tools@, with_descriptions),
        ),
{
    let mut lines: Vec<String> = Vec::new();
    let ghost empty = text::texts(lines@);
    push_snapshot(&mut lines, snapshot.server.as_str(), snapshot, with_descriptions);
    assert(text::texts(lines@) =~= snapshot_lines(
        snapshot.server@,
        snapshot.tools@,
        with_descriptions,
    ));
    finish_lines(&lines)
}

/// The lines of one server result in the list view.
pub open spec fn result_lines(
    result: PerServer<ServerSnapshot>,
    with_descriptions: bool,
) -> Seq<Seq<char>> {
    match result {
        PerServer::Success { server, value } => snapshot_lines(
            server@,
            value.tools@,
            with_descriptions,
        ),
        PerServer::Failure { server, error } => seq![
            server@,
            "  <error: "@ + with_breaks(error@.message, ' ') + ">"@,
        ],
    }
}

/// The lines of a list of results with an empty line between each two.
pub open spec fn list_lines(
    results: Seq<PerServer<ServerSnapshot>>,
    with_descriptions: bool,
) -> Seq<Seq<char>>
    decreases results.len(),
{
    if results.len() == 0 {
        Seq::empty()
    } else {
        list_lines(results.drop_last(), with_descriptions) + (if results.len() > 1 {
            seq![Seq::<char>::empty()]
        } else {
            Seq::empty()
        }) + result_lines(results.last(), with_descriptions)
    }
}

/// Formats all list results, preserving successful snapshots when another
/// server failed. Servers and their tools are sorted before rendering.
pub fn format_server_list(
    results: &[PerServer<ServerSnapshot>],
    with_descriptions: bool,
) -> (r: String)
    ensures
        r@ == finished(
            if results@.len() == 0 {
                seq!["No servers configured."@]
            } else {
                list_lines(order::stable_sort(results@), with_descriptions)
            },
        ),
{
    let mut lines: Vec<String> = Vec::new();
    if results.len() == 0 {
        lines.push("No servers configured.".to_owned());
        assert(text::texts(lines@) =~= seq!["No servers configured."@]);
        return finish_lines(&lines);
    }
    let items = sorted_refs(results);
    let ghost sorted = order::stable_sort(results@);
    let mut index: usize = 0;
    assert(text::texts(lines@) =~= list_lines(sorted.take(0), with_descriptions));
    while index < items.len()
        invariant
            index <= items.len(),
            order::targets(items@) == sorted,
            text::texts(lines@) == list_lines(sorted.take(index as int), with_descriptions),
        decreases items.len() - index,
    {
        let ghost before = text::texts(lines@);
        let ghost seen = sorted.take(index + 1);
        assert(seen.drop_last() =~= sorted.take(index as int));
        assert(seen.last() == *items@[index as int]);
        if index != 0 {
            lines.push(String::new());
            assert(text::texts(lines@) =~= before + seq![Seq::<char>::empty()]);
        } else {
            assert(text::texts(lines@) =~= before + Seq::<Seq<char>>::empty());
        }
        let ghost opened = text::texts(lines@);
        match items[index] {
            PerServer::Success { server, value } => {
                push_snapshot(&mut lines, server.as_str(), value, with_descriptions);
            },
            PerServer::Failure { server, error } => {
                lines.push(server.clone());
                let mut line = "  <error: ".to_owned();
                line.append(single_line(error.display_text()).as_str());
                line.append(">");
                let ghost added = line@;
                lines.push(line);
                assert(text::texts(lines@) =~= opened + seq![server@, added]);
            },
        }
        assert(text::texts(lines@) =~= list_lines(seen, with_descriptions));
        index += 1;
    }
    assert(sorted.take(index as int) =~= sorted);
    finish_lines(&lines)
}

/// One hit of a search.
pub open spec fn hit_line(hit: SearchHit, with_descriptions: bool) -> Seq<char> {
    hit.server@ + " "@ + hit.tool.name@ + described(
        text::optional(hit.tool.description),
        with_descriptions,
    )
}

/// The lines of the hits of a search.
pub open spec fn hit_lines(hits: Seq<SearchHit>, with_descriptions: bool) -> Seq<Seq<char>> {
    if hits.len() == 0 {
        seq!["No matching tools found."@]
    } else {
        order::stable_sort(hits).map_values(|hit: SearchHit| hit_line(hit, with_descriptions))
    }
}

/// The text of a search is the same for every order of its hits.
pub proof fn hit_text_ignores_the_order_of_hits(
    left: Seq<SearchHit>,
    right: Seq<SearchHit>,
    with_descriptions: bool,
)
    requires
        left.to_multiset() == right.to_multiset(),
    ensures
        finished(hit_lines(left, with_descriptions)) == finished(
            hit_lines(right, with_descriptions),
        ),
{
    broadcast use vstd::seq_lib::group_to_multiset_ensures;

    assert(left.len() == left.to_multiset().len());
    assert(right.len() == right.to_multiset().len());
    lemma_hit_order();
    order::sorted_ranks_depend_on_the_items_alone(left, right);
    let (a, b) = (order::stable_sort(left), order::stable_sort(right));
    assert forall|i: int| 0 <= i < a.len() implies hit_line(
        #[trigger] a[i],
        with_descriptions,
    ) == hit_line(b[i], with_descriptions) by {
        let (x, y) = (a[i], b[i]);
        text::lemma_text_before_total(x.server@, y.server@);
        text::lemma_text_before_total(x.tool.name@, y.tool.name@);
        lemma_optional_order(
            text::optional(x.tool.description),
            text::optional(y.tool.description),
            None,
        );
    }
    assert(hit_lines(left, with_descriptions) =~= hit_lines(right, with_descriptions));
}

/// The text holds neither a line feed nor a carriage return.
pub open spec fn unbroken(source: Seq<char>) -> bool {
    forall|i: int| 0 <= i < source.len() ==> #[trigger] source[i] != '\n' && source[i] != '\r'
}

proof fn lemma_breaks_replaced(source: Seq<char>)
    ensures
        unbroken(with_breaks(source, ' ')),
    decreases source.len(),
{
    if source.len() > 0 {
        lemma_breaks_replaced(source.drop_last());
    }
}

proof fn lemma_lines_behind(source: Seq<char>, line: Seq<char>)
    requires
        unbroken(line),
    ensures
        lines_of(source).len() > 0,
        lines_of(source + line) == lines_of(source).drop_last().push(lines_of(source).last() + line),
    decreases line.len(),
{
    lemma_some_line(source);
    let lines = lines_of(source);
    if line.len() == 0 {
        assert(source + line =~= source);
        assert(lines.last() + line =~= lines.last());
        assert(lines.drop_last().push(lines.last()) =~= lines);
    } else {
        let head = line.drop_last();
        assert forall|i: int| 0 <= i < head.len() implies #[trigger] head[i] != '\n' && head[i]
            != '\r' by {
            assert(head[i] == line[i]);
        }
        lemma_lines_behind(source, head);
        assert((source + line).drop_last() =~= source + head);
        assert(line[line.len() - 1] != '\n');
        let before = lines.drop_last().push(lines.last() + head);
        assert(before.drop_last() =~= lines.drop_last());
        assert((lines.last() + head).push(line.last()) =~= lines.last() + line);
    }
}

proof fn lemma_some_line(source: Seq<char>)
    ensures
        lines_of(source).len() > 0,
    decreases source.len(),
{
    if source.len() > 0 {
        lemma_some_line(source.drop_last());
    }
}

/// Unbroken lines that are joined are the lines of the joined text.
proof fn lemma_lines_of_joined(lines: Seq<Seq<char>>)
    requires
        lines.len() > 0,
        forall|i: int| 0 <= i < lines.len() ==> unbroken(#[trigger] lines[i]),
    ensures
        lines_of(text::joined(lines, "\n"@)) == lines,
    decreases lines.len(),
{
    reveal_strlit("\n");
    let none = Seq::<char>::empty();
    let last = lines.last();
    assert(unbroken(lines[lines.len() - 1]));
    if lines.len() == 1 {
        lemma_lines_behind(none, last);
        assert(none + last =~= last);
        assert(lines_of(none) =~= seq![none]);
        assert(lines_of(last) =~= lines);
    } else {
        let head = lines.drop_last();
        assert forall|i: int| 0 <= i < head.len() implies unbroken(#[trigger] head[i]) by {
            assert(head[i] == lines[i]);
        }
        lemma_lines_of_joined(head);
        let before = text::joined(head, "\n"@) + "\n"@;
        assert(before.drop_last() =~= text::joined(head, "\n"@));
        assert(before.last() == '\n');
        assert(lines_of(before) == head.push(none));
        lemma_lines_behind(before, last);
        assert(head.push(none).drop_last() =~= head);
        assert(none + last =~= last);
        assert(head.push(last) =~= lines);
    }
}

/// Every hit takes one line, if no name of a server or a tool holds a line break.
pub proof fn every_hit_takes_one_line(hits: Seq<SearchHit>, with_descriptions: bool)
    requires
        hits.len() > 0,
        forall|i: int|
            0 <= i < hits.len() ==> unbroken((#[trigger] hits[i]).server@) && unbroken(
                hits[i].tool.name@,
            ),
    ensures
        lines_of(finished(hit_lines(hits, with_descriptions))) == order::stable_sort(
            hits,
        ).map_values(|hit: SearchHit| hit_line(hit, with_descriptions)).push(Seq::empty()),
        order::stable_sort(hits).len() == hits.len(),
{
    broadcast use vstd::seq_lib::group_to_multiset_ensures;

    let sorted = order::stable_sort(hits);
    let lines = hit_lines(hits, with_descriptions);
    order::stable_sort_is_a_permutation(hits);
    assert(sorted.len() == sorted.to_multiset().len());
    assert(hits.len() == hits.to_multiset().len());
    reveal_strlit(" ");
    reveal_strlit("\n");
    reveal_strlit(" - ");
    assert forall|i: int| 0 <= i < lines.len() implies unbroken(#[trigger] lines[i])
        && lines[i].len() > 0 by {
        let hit = sorted[i];
        assert(sorted.contains(hit));
        assert(sorted.to_multiset().count(hit) > 0);
        assert(hits.to_multiset().count(hit) > 0);
        assert(hits.contains(hit));
        let k = choose|k: int| 0 <= k < hits.len() && hits[k] == hit;
        assert(unbroken(hits[k].server@) && unbroken(hits[k].tool.name@));
        assert(lines[i] == hit_line(hit, with_descriptions));
        if let Some(source) = text::optional(hit.tool.description) {
            lemma_breaks_replaced(source);
        }
    }
    lemma_lines_of_joined(lines);
    let whole = text::joined(lines, "\n"@);
    lemma_joined_last(lines);
    assert(without_final_breaks(whole) == whole);
    assert(whole.push('\n').drop_last() =~= whole);
}

/// Joined lines end in what the last line ends in.
proof fn lemma_joined_last(lines: Seq<Seq<char>>)
    requires
        lines.len() > 0,
        lines.last().len() > 0,
        unbroken(lines.last()),
    ensures
        ({
            let whole = text::joined(lines, "\n"@);
            whole.len() > 0 && whole.last() != '\n' && whole.last() != '\r'
        }),
{
    let last = lines.last();
    let whole = text::joined(lines, "\n"@);
    assert(whole[whole.len() - 1] == last[last.len() - 1]);
}

/// Formats grep hits in stable `(server, tool)` order.
pub fn format_grep_hits(hits: &[SearchHit], with_descriptions: bool) -> (r: String)
    ensures
        r@ == finished(hit_lines(hits@, with_descriptions)),
{
    let mut lines: Vec<String> = Vec::new();
    if hits.len() == 0 {
        lines.push("No matching tools found.".to_owned());
        assert(text::texts(lines@) =~= seq!["No matching tools found."@]);
        return finish_lines(&lines);
    }
    let items = sorted_refs(hits);
    let ghost sorted = order::stable_sort(hits@);
    let ghost format = |hit: SearchHit| hit_line(hit, with_descriptions);
    let mut index: usize = 0;
    assert(text::texts(lines@) =~= sorted.take(0).map_values(format));
    while index < items.len()
        invariant
            index <= items.len(),
            order::targets(items@) == sorted,
            format == (|hit: SearchHit| hit_line(hit, with_descriptions)),
            text::texts(lines@) == sorted.take(index as int).map_values(format),
        decreases items.len() - index,
    {
        let hit = items[index];
        assert(sorted[index as int] == *hit);
        let mut line = hit.server.clone();
        line.append(" ");
        line.append(hit.tool.name.as_str());
        push_description(&mut line, optional_str(&hit.tool.description), with_descriptions);
        let ghost added = line@;
        let ghost before = text::texts(lines@);
        lines.push(line);
        proof {
            assert(text::texts(lines@) =~= before.push(added));
            assert(sorted.take(index + 1).map_values(format) =~= sorted.take(
                index as int,
            ).map_values(format).push(added));
        }
        index += 1;
    }
    assert(sorted.take(index as int) =~= sorted);
    finish_lines(&lines)
}


/// The member of an object with the given name.
pub open spec fn member(value: Json, name: Seq<char>) -> Option<Json> {
    match value {
        Json::Object(members) => if members.dom().contains(name) {
            Some(members[name])
        } else {
            None
        },
        _ => None,
    }
}

/// The text of the member with the given name, where it is a string.
pub open spec fn text_member(value: Json, name: Seq<char>) -> Option<Seq<char>> {
    match member(value, name) {
        Some(Json::Str(found)) => Some(found),
        _ => None,
    }
}

/// The schema names the property as required.
pub open spec fn requires_property(schema: Json, name: Seq<char>) -> bool {
    match member(schema, "required"@) {
        Some(Json::Array(items)) => exists|i: int|
            0 <= i < items.len() && #[trigger] items[i] == Json::Str(name),
        _ => false,
    }
}

/// One parameter of a tool.
pub open spec fn parameter_line(
    name: Seq<char>,
    property: Json,
    required: bool,
    with_descriptions: bool,
) -> Seq<char> {
    "      • "@ + name + " ("@ + (match text_member(property, "type"@) {
        Some(kind) => kind,
        None => "any"@,
    }) + ", "@ + (if required {
        "required"@
    } else {
        "optional"@
    }) + ")"@ + described(text_member(property, "description"@), with_descriptions)
}

/// The parameters of a tool in order of their names.
pub open spec fn parameter_lines(schema: Json, with_descriptions: bool) -> Seq<Seq<char>> {
    match member(schema, "properties"@) {
        Some(Json::Object(properties)) => {
            let names = order::ascending_list(properties.dom());
            if names.len() == 0 {
                Seq::empty()
            } else {
                seq!["    Parameters:"@] + names.map_values(
                    |name: Seq<char>|
                        parameter_line(
                            name,
                            properties[name],
                            requires_property(schema, name),
                            with_descriptions,
                        ),
                )
            }
        },
        _ => Seq::empty(),
    }
}

/// The lines of one tool in the info view.
pub open spec fn info_tool_lines(tool: ToolInfo, with_descriptions: bool) -> Seq<Seq<char>> {
    seq!["  "@ + tool.name@] + description_lines(
        text::optional(tool.description),
        with_descriptions,
    ) + parameter_lines(tool.input_schema@, with_descriptions)
}

/// The lines of a tool description, where it is wanted and there is one.
pub open spec fn description_lines(
    description: Option<Seq<char>>,
    with_descriptions: bool,
) -> Seq<Seq<char>> {
    match description {
        Some(source) => if with_descriptions {
            block_lines(source, "    "@)
        } else {
            Seq::empty()
        },
        None => Seq::empty(),
    }
}

/// The lines of the instructions of a server, where there are any.
pub open spec fn instruction_lines(instructions: Option<Seq<char>>) -> Seq<Seq<char>> {
    match instructions {
        Some(source) => seq![Seq::<char>::empty(), "Instructions:"@] + block_lines(source, "  "@),
        None => Seq::empty(),
    }
}

fn is_required(schema: &JsonValue, name: &str) -> (r: bool)
    ensures
        r == requires_property(schema@, name@),
{
    let listed = match schema.get("required") {
        Some(listed) => listed,
        None => return false,
    };
    proof {
        json::lemma_json_of(*listed);
    }
    match listed {
        JsonValue::Array(items) => {
            let ghost found = json::contents(items@);
            let mut index: usize = 0;
            while index < items.len()
                invariant
                    index <= items.len(),
                    found == json::contents(items@),
                    member(schema@, "required"@) == Some(Json::Array(found)),
                    forall|i: int| 0 <= i < index ==> #[trigger] found[i] != Json::Str(name@),
                decreases items.len() - index,
            {
                assert(found[index as int] == items@[index as int]@);
                if let Some(required) = items[index].as_str() {
                    if str_equal(required, name) {
                        return true;
                    }
                }
                index += 1;
            }
            false
        },
        _ => false,
    }
}

fn push_parameter(
    lines: &mut Vec<String>,
    name: &str,
    property: &JsonValue,
    required: bool,
    with_descriptions: bool,
)
    ensures
        text::texts(final(lines)@) == text::texts(old(lines)@).push(
            parameter_line(name@, property@, required, with_descriptions),
        ),
{
    let ghost before = text::texts(lines@);
    let mut line = "      • ".to_owned();
    line.append(name);
    line.append(" (");
    let kind = match property.get("type") {
        Some(kind) => kind.as_str(),
        None => None,
    };
    match kind {
        Some(kind) => line.append(kind),
        None => line.append("any"),
    }
    line.append(", ");
    if required {
        line.append("required");
    } else {
        line.append("optional");
    }
    line.append(")");
    let description = match property.get("description") {
        Some(description) => description.as_str(),
        None => None,
    };
    push_description(&mut line, description, with_descriptions);
    let ghost added = line@;
    lines.push(line);
    assert(text::texts(lines@) =~= before.push(added));
}

fn append_info_tool(lines: &mut Vec<String>, tool: &ToolInfo, with_descriptions: bool)
    ensures
        text::texts(final(lines)@) == text::texts(old(lines)@) + info_tool_lines(
            *tool,
            with_descriptions,
        ),
{
    let ghost start = text::texts(lines@);
    let ghost schema = tool.input_schema@;
    let mut heading = "  ".to_owned();
    heading.append(tool.name.as_str());
    let ghost first = seq![heading@];
    lines.push(heading);
    assert(text::texts(lines@) =~= start + first);
    let ghost block = description_lines(text::optional(tool.description), with_descriptions);
    if with_descriptions {
        if let Some(description) = &tool.description {
            push_block(lines, description.as_str(), "    ");
        }
    }
    let ghost before = start + first + block;
    assert(text::texts(lines@) =~= before);
    assert(before + parameter_lines(schema, with_descriptions) =~= start + (first + block
        + parameter_lines(schema, with_descriptions)));
    let properties = match tool.input_schema.get("properties") {
        Some(properties) => properties,
        None => {
            assert(text::texts(lines@) =~= before + Seq::<Seq<char>>::empty());
            return;
        },
    };
    proof {
        json::lemma_json_of(*properties);
    }
    let object = match properties {
        JsonValue::Object(object) => object,
        _ => {
            assert(text::texts(lines@) =~= before + Seq::<Seq<char>>::empty());
            return;
        },
    };
    let names = object.sorted_names();
    let ghost listed = text::texts(names@);
    if names.len() == 0 {
        assert(listed.len() == 0);
        assert(text::texts(lines@) =~= before + Seq::<Seq<char>>::empty());
        return;
    }
    lines.push("    Parameters:".to_owned());
    let ghost title = seq!["    Parameters:"@];
    assert(text::texts(lines@) =~= before + title);
    let ghost format = |name: Seq<char>|
        parameter_line(
            name,
            object@[name],
            requires_property(schema, name),
            with_descriptions,
        );
    let mut index: usize = 0;
    assert(before + title =~= before + (title + listed.take(0).map_values(format)));
    while index < names.len()
        invariant
            index <= names.len(),
            schema == tool.input_schema@,
            listed == text::texts(names@),
            order::lists(listed, object@.dom()),
            format == (|name: Seq<char>|
                parameter_line(
                    name,
                    object@[name],
                    requires_property(schema, name),
                    with_descriptions,
                )),
            text::texts(lines@) == before + (title + listed.take(index as int).map_values(format)),
        decreases names.len() - index,
    {
        let name = names[index].as_str();
        let ghost shown = text::texts(lines@);
        assert(listed[index as int] == name@);
        assert(listed.contains(name@));
        let required = is_required(&tool.input_schema, name);
        match object.get(name) {
            Some(property) => {
                push_parameter(lines, name, property, required, with_descriptions);
            },
            None => {
                assert(false);
            },
        }
        proof {
            assert(listed.take(index + 1).map_values(format) =~= listed.take(
                index as int,
            ).map_values(format).push(format(name@)));
            assert(text::texts(lines@) =~= before + (title + listed.take(index + 1).map_values(
                format,
            )));
        }
        index += 1;
    }
    assert(listed.take(index as int) =~= listed);
}

/// The lines that describe a transport.
pub open spec fn transport_lines(summary: TransportSummary) -> Seq<Seq<char>> {
    match summary {
        TransportSummary::Stdio { command } => seq!["Transport: stdio"@, "Command: "@ + command@],
        TransportSummary::Http { url } => seq!["Transport: HTTP"@, "URL: "@ + url@.text],
    }
}

/// The lines of several tools in the info view.
pub open spec fn info_tools(tools: Seq<ToolInfo>, with_descriptions: bool) -> Seq<Seq<char>>
    decreases tools.len(),
{
    if tools.len() == 0 {
        Seq::empty()
    } else {
        info_tools(tools.drop_last(), with_descriptions) + info_tool_lines(
            tools.last(),
            with_descriptions,
        )
    }
}

/// The lines of the info view of one server.
pub open spec fn info_lines(snapshot: ServerSnapshot, with_descriptions: bool) -> Seq<Seq<char>> {
    seq!["Server: "@ + snapshot.server@] + transport_lines(snapshot.transport_summary)
        + instruction_lines(text::optional(snapshot.instructions)) + seq![
        Seq::<char>::empty(),
        "Tools ("@ + text::decimal(snapshot.tools@.len()) + "):"@,
    ] + (if snapshot.tools@.len() == 0 {
        seq!["  (none)"@]
    } else {
        info_tools(order::stable_sort(snapshot.tools@), with_descriptions)
    })
}

fn push_labelled(lines: &mut Vec<String>, label: &str, value: &str)
    ensures
        text::texts(final(lines)@) == text::texts(old(lines)@).push(label@ + value@),
{
    let ghost before = text::texts(lines@);
    let mut line = label.to_owned();
    line.append(value);
    let ghost added = line@;
    lines.push(line);
    assert(text::texts(lines@) =~= before.push(added));
}

fn push_plain(lines: &mut Vec<String>, line: &str)
    ensures
        text::texts(final(lines)@) == text::texts(old(lines)@).push(line@),
{
    let ghost before = text::texts(lines@);
    lines.push(line.to_owned());
    assert(text::texts(lines@) =~= before.push(line@));
}

/// Formats the human-readable `info <server>` view.
///
/// Tool names and JSON Schema property names are sorted. Instructions are
/// server metadata rather than tool descriptions, so they remain visible for
/// both values of `with_descriptions`.
pub fn format_server_info(snapshot: &ServerSnapshot, with_descriptions: bool) -> (r: String)
    ensures
        r@ == finished(info_lines(*snapshot, with_descriptions)),
{
    let mut lines: Vec<String> = Vec::new();
    push_labelled(&mut lines, "Server: ", snapshot.server.as_str());
    let ghost server = seq!["Server: "@ + snapshot.server@];
    assert(text::texts(lines@) =~= server);
    match &snapshot.transport_summary {
        TransportSummary::Stdio { command } => {
            push_plain(&mut lines, "Transport: stdio");
            push_labelled(&mut lines, "Command: ", command.as_str());
        },
        TransportSummary::Http { url } => {
            push_plain(&mut lines, "Transport: HTTP");
            push_labelled(&mut lines, "URL: ", url.as_str());
        },
    }
    let ghost transport = transport_lines(snapshot.transport_summary);
    assert(text::texts(lines@) =~= server + transport);
    let ghost instructions = instruction_lines(text::optional(snapshot.instructions));
    match &snapshot.instructions {
        Some(source) => {
            lines.push(String::new());
            assert(text::texts(lines@) =~= (server + transport).push(Seq::<char>::empty()));
            push_plain(&mut lines, "Instructions:");
            push_block(&mut lines, source.as_str(), "  ");
        },
        None => {},
    }
    assert(text::texts(lines@) =~= server + transport + instructions);
    let tools = sorted_refs(snapshot.tools.as_slice());
    let ghost sorted = order::stable_sort(snapshot.tools@);
    proof {
        lemma_sort_length(snapshot.tools@);
    }
    lines.push(String::new());
    assert(text::texts(lines@) =~= (server + transport + instructions).push(
        Seq::<char>::empty(),
    ));
    let mut count = "Tools (".to_owned();
    count.append(decimal_text(tools.len() as u128).as_str());
    count.append("):");
    push_plain(&mut lines, count.as_str());
    let ghost title = seq![
        Seq::<char>::empty(),
        "Tools ("@ + text::decimal(snapshot.tools@.len()) + "):"@,
    ];
    let ghost before = server + transport + instructions + title;
    assert(text::texts(lines@) =~= before);
    if tools.len() == 0 {
        push_plain(&mut lines, "  (none)");
        assert(text::texts(lines@) =~= before + seq!["  (none)"@]);
    } else {
        let mut index: usize = 0;
        assert(before =~= before + info_tools(sorted.take(0), with_descriptions));
        while index < tools.len()
            invariant
                index <= tools.len(),
                order::targets(tools@) == sorted,
                text::texts(lines@) == before + info_tools(
                    sorted.take(index as int),
                    with_descriptions,
                ),
            decreases tools.len() - index,
        {
            let ghost shown = text::texts(lines@);
            assert(sorted.take(index + 1).drop_last() =~= sorted.take(index as int));
            assert(sorted.take(index + 1).last() == *tools@[index as int]);
            append_info_tool(&mut lines, tools[index], with_descriptions);
            assert(text::texts(lines@) =~= before + info_tools(
                sorted.take(index + 1),
                with_descriptions,
            ));
            index += 1;
        }
        assert(sorted.take(index as int) =~= sorted);
    }
    finish_lines(&lines)
}


/// The compact text of a value and a line feed.
pub open spec fn json_line(content: Json) -> Seq<u8> {
    json::json_text(content).push(10u8)
}

/// Serializes any JSON value as exactly one compact JSON document followed by
/// one newline. No labels, diagnostics, or ANSI escapes are added.
pub fn format_json_value(value: &JsonValue) -> (r: Result<Vec<u8>, CliError>)
    ensures
        r matches Ok(rendered) && {
            &&& rendered@ == json_line(value@)
            &&& json::printable(rendered@.drop_last())
            &&& json::reads_back(value@, json::MAX_DEPTH as nat) ==> json::json_document(
                rendered@.drop_last(),
            ) == Some(value@)
        },
{
    let mut rendered = value.to_text();
    let ghost document = rendered@;
    rendered.push(10u8);
    assert(rendered@.drop_last() =~= document);
    Ok(rendered)
}

/// Formats the complete JSON Schema advertised for an MCP tool.
///
/// The schema remains an unmodified value, including non-object schemas and
/// extension keywords unknown to this crate.
pub fn format_json_schema(schema: &JsonValue) -> (r: Result<Vec<u8>, CliError>)
    ensures
        r matches Ok(rendered) && rendered@ == json_line(schema@),
{
    format_json_value(schema)
}

/// Formats the complete MCP tool result without extracting text content or
/// rewriting protocol and extension fields.
pub fn format_tool_result(result: &ToolResult) -> (r: Result<Vec<u8>, CliError>)
    ensures
        r matches Ok(rendered) && rendered@ == json_line(result@),
{
    format_json_value(result)
}

/// The error for output that cannot be serialized. Nothing of the cause shows.
pub fn json_serialization_error<E>(source: &E) -> (r: CliError)
    ensures
        r@ == error::plain_error(
            ErrorKind::InvalidJson,
            "Failed to serialize JSON output"@,
        ).details("The JSON output value could not be serialized"@).source(),
{
    CliError::from_kind(ErrorKind::InvalidJson, "Failed to serialize JSON output").with_details(
        "The JSON output value could not be serialized",
    ).with_source(source)
}

/// The error for an output stream that cannot be written. Nothing of the cause
/// shows.
pub fn output_write_error<E>(source: &E) -> (r: CliError)
    ensures
        r@ == error::plain_error(
            ErrorKind::NetworkError,
            "Failed to write command output"@,
        ).details("The destination output stream could not be written"@).source(),
{
    CliError::from_kind(ErrorKind::NetworkError, "Failed to write command output").with_details(
        "The destination output stream could not be written",
    ).with_source(source)
}

/// Injectable business-output renderer.
pub trait Presenter {
    fn render(&self, outcome: CommandOutcome, style: StylePolicy) -> Result<Vec<u8>, CliError>;
}

/// Dedicated pure presenter for JSON business output.
///
/// Style is deliberately ignored: machine-readable JSON never contains ANSI
/// escapes, even when stdout is a TTY.
#[derive(Clone, Copy, Debug)]
pub struct JsonPresenter;

impl Default for JsonPresenter {
    fn default() -> (r: Self)
        ensures
            r == JsonPresenter,
    {
        JsonPresenter
    }
}

/// What the JSON presenter makes of an outcome.
pub open spec fn json_presentation(outcome: CommandOutcome) -> Result<
    Seq<u8>,
    error::ErrorContent,
> {
    match outcome {
        CommandOutcome::Json(value) => Ok(json_line(value@)),
        CommandOutcome::Empty => Ok(Seq::empty()),
        CommandOutcome::HumanText(_) => Err(
            error::plain_error(
                ErrorKind::InvalidArguments,
                "Text outcomes cannot be rendered by the JSON presenter"@,
            ),
        ),
    }
}

/// The result shows what the model says.
pub open spec fn presents(
    result: Result<Vec<u8>, CliError>,
    model: Result<Seq<u8>, error::ErrorContent>,
) -> bool {
    match model {
        Ok(bytes) => result matches Ok(rendered) && rendered@ == bytes,
        Err(failure) => result matches Err(failed) && failed@ == failure,
    }
}

impl JsonPresenter {
    pub fn render_value(&self, value: &JsonValue) -> (r: Result<Vec<u8>, CliError>)
        ensures
            r matches Ok(rendered) && rendered@ == json_line(value@),
    {
        format_json_value(value)
    }
}

impl Presenter for JsonPresenter {
    fn render(&self, outcome: CommandOutcome, _style: StylePolicy) -> (r: Result<
        Vec<u8>,
        CliError,
    >)
        ensures
            presents(r, json_presentation(outcome)),
    {
        match outcome {
            CommandOutcome::Json(value) => self.render_value(&value),
            CommandOutcome::Empty => {
                let empty: Vec<u8> = Vec::new();
                Ok(empty)
            },
            CommandOutcome::HumanText(_) => Err(
                CliError::from_kind(
                    ErrorKind::InvalidArguments,
                    "Text outcomes cannot be rendered by the JSON presenter",
                ),
            ),
        }
    }
}

/// Presenter for successful human-readable business outcomes.
///
/// When styling is allowed, ANSI wraps only the completed semantic text
/// fragment. Removing the wrapper yields byte-for-byte the plain text output.
/// JSON outcomes always use [`JsonPresenter`] and therefore stay unstyled.
#[derive(Clone, Copy, Debug)]
pub struct PlainTextPresenter;

impl Default for PlainTextPresenter {
    fn default() -> (r: Self)
        ensures
            r == PlainTextPresenter,
    {
        PlainTextPresenter
    }
}

/// What the text presenter makes of an outcome.
pub open spec fn text_presentation(outcome: CommandOutcome, style: StylePolicy) -> Result<
    Seq<u8>,
    error::ErrorContent,
> {
    match outcome {
        CommandOutcome::HumanText(source) => Ok(
            vstd::utf8::encode_utf8(
                styled(without_final_breaks(source@), ANSI_CYAN_BOLD@, style),
            ).push(10u8),
        ),
        _ => json_presentation(outcome),
    }
}

impl Presenter for PlainTextPresenter {
    fn render(&self, outcome: CommandOutcome, style: StylePolicy) -> (r: Result<Vec<u8>, CliError>)
        ensures
            presents(r, text_presentation(outcome, style)),
    {
        match outcome {
            CommandOutcome::HumanText(source) => {
                let ghost original = source@;
                let mut characters = chars_of(source.as_str());
                while characters.len() > 0 && (characters[characters.len() - 1] == '\n'
                    || characters[characters.len() - 1] == '\r')
                    invariant
                        without_final_breaks(characters@) == without_final_breaks(original),
                    decreases characters.len(),
                {
                    let ghost longer = characters@;
                    let _ = characters.pop();
                    assert(characters@ =~= longer.drop_last());
                }
                let fragment = string_of(&characters);
                let styled = style_fragment(fragment.as_str(), ANSI_CYAN_BOLD, style);
                let mut rendered: Vec<u8> = vstd::slice::slice_to_vec(styled.as_str().as_bytes());
                rendered.push(10u8);
                Ok(rendered)
            },
            CommandOutcome::Empty => {
                let empty: Vec<u8> = Vec::new();
                Ok(empty)
            },
            CommandOutcome::Json(value) => JsonPresenter.render(CommandOutcome::Json(value), style),
        }
    }
}

/// Styling never changes the text: without escape sequences the styled fragment
/// is the plain fragment.
pub proof fn styling_only_wraps(fragment: Seq<char>, ansi: Seq<char>, policy: StylePolicy)
    ensures
        ({
            let shown = styled(fragment, ansi, policy);
            ||| shown == fragment
            ||| shown.len() == ansi.len() + fragment.len() + ANSI_RESET@.len() && shown.subrange(
                ansi.len() as int,
                (ansi.len() + fragment.len()) as int,
            ) == fragment
        }),
        !(policy.is_tty && !policy.no_color) ==> styled(fragment, ansi, policy) == fragment,
{
    let shown = styled(fragment, ansi, policy);
    if shown != fragment {
        assert(shown.subrange(ansi.len() as int, (ansi.len() + fragment.len()) as int)
            =~= fragment);
    }
}


/// Injectable two-stream presentation boundary.
///
/// The pure layer receives TTY and `NO_COLOR` presence as values and never
/// probes the terminal or environment. Business outcomes can only reach the
/// stdout buffer; diagnostics can only reach the stderr-backed sink.
pub struct DualStreamWriter {
    stdout: Vec<u8>,
    diagnostics: WriterDiagnosticSink,
    styles: StreamStylePolicies,
}

impl DualStreamWriter {
    /// The bytes for stdout.
    pub closed spec fn output(&self) -> Seq<u8> {
        self.stdout@
    }

    /// The sink for stderr.
    pub closed spec fn sink(&self) -> redact::SinkContent {
        self.diagnostics@
    }

    pub closed spec fn policies(&self) -> StreamStylePolicies {
        self.styles
    }

    pub closed spec fn wf(&self) -> bool {
        self.diagnostics.wf()
    }

    pub fn new(
        stdout: Vec<u8>,
        stderr: Vec<u8>,
        stdout_is_tty: bool,
        stderr_is_tty: bool,
        no_color_present: bool,
        debug_enabled: bool,
        secrets: SecretSet,
    ) -> (r: Self)
        requires
            secrets.wf(),
        ensures
            r.wf(),
            r.output() == stdout@,
            r.policies().stdout == (StylePolicy {
                is_tty: stdout_is_tty,
                no_color: no_color_present,
            }),
            r.policies().stderr == (StylePolicy {
                is_tty: stderr_is_tty,
                no_color: no_color_present,
            }),
            r.sink() == (redact::SinkContent {
                written: stderr@,
                debug_enabled,
                style: StylePolicy { is_tty: stderr_is_tty, no_color: no_color_present },
                secrets: secrets@,
                longest: secrets.longest(),
                streams: Map::empty(),
            }),
    {
        let styles = StreamStylePolicies::new(stdout_is_tty, stderr_is_tty, no_color_present);
        DualStreamWriter {
            stdout,
            diagnostics: WriterDiagnosticSink::new_styled(
                stderr,
                debug_enabled,
                secrets,
                styles.stderr,
            ),
            styles,
        }
    }

    pub fn styles(&self) -> (r: StreamStylePolicies)
        ensures
            r == self.policies(),
    {
        self.styles
    }

    /// Renders and writes one business result exclusively to stdout.
    pub fn write_outcome<P: Presenter>(&mut self, presenter: &P, outcome: CommandOutcome) -> (r:
        Result<(), CliError>)
        requires
            old(self).wf(),
        ensures
            final(self).wf(),
            final(self).sink() == old(self).sink(),
            final(self).policies() == old(self).policies(),
            exists|rendered: Result<Vec<u8>, CliError>| #[trigger]
                call_ensures(
                    P::render,
                    (presenter, outcome, old(self).policies().stdout),
                    rendered,
                ) && match rendered {
                    Ok(bytes) => r is Ok && final(self).output() == old(self).output() + bytes@,
                    Err(failure) => r == Err::<(), CliError>(failure) && final(self).output()
                        == old(self).output(),
                },
    {
        let rendered = presenter.render(outcome, self.styles.stdout);
        match rendered {
            Ok(bytes) => {
                append_bytes(&mut self.stdout, bytes.as_slice());
                Ok(())
            },
            Err(failure) => Err(failure),
        }
    }

    pub fn into_writers(self) -> (r: (Vec<u8>, Vec<u8>))
        ensures
            r.0@ == self.output(),
            r.1@ == self.sink().written,
    {
        (self.stdout, self.diagnostics.into_inner())
    }
}

impl DiagnosticSink for DualStreamWriter {
    open spec fn ready(&self) -> bool {
        self.wf()
    }

    fn warning(&mut self, message: &str)
        ensures
            final(self).output() == old(self).output(),
            final(self).policies() == old(self).policies(),
            final(self).sink() == old(self).sink().warned(message@),
    {
        self.diagnostics.warning(message);
    }

    fn debug(&mut self, message: &str)
        ensures
            final(self).output() == old(self).output(),
            final(self).policies() == old(self).policies(),
            final(self).sink() == old(self).sink().debugged(message@),
    {
        self.diagnostics.debug(message);
    }

    fn server_stderr(&mut self, server: &str, bytes: &[u8])
        ensures
            final(self).output() == old(self).output(),
            final(self).policies() == old(self).policies(),
            final(self).sink() == old(self).sink().received(server@, bytes@),
    {
        self.diagnostics.server_stderr(server, bytes);
    }

    fn server_stderr_flush(&mut self, server: &str)
        ensures
            final(self).output() == old(self).output(),
            final(self).policies() == old(self).policies(),
            final(self).sink() == old(self).sink().ended(server@),
    {
        self.diagnostics.server_stderr_flush(server);
    }
}

/// Line breaks are replaced one for one: a break of any form becomes one
/// character, and text without a break stays as it is.
pub proof fn breaks_are_replaced_one_for_one(
    first: Seq<char>,
    second: Seq<char>,
    replacement: char,
)
    ensures
        unbroken(first) ==> with_breaks(first, replacement) == first,
        with_breaks(seq!['\r', '\n'], replacement) == seq![replacement],
        with_breaks(seq!['\r'], replacement) == seq![replacement],
        with_breaks(seq!['\n'], replacement) == seq![replacement],
        !(first.len() > 0 && second.len() > 0 && first.last() == '\r' && second[0] == '\n')
            ==> with_breaks(first + second, replacement) == with_breaks(first, replacement)
            + with_breaks(second, replacement),
    decreases first.len() + second.len(),
{
    reveal_with_fuel(with_breaks, 3);
    assert(seq!['\r', '\n'].drop_last() =~= seq!['\r']);
    assert(seq!['\r'].drop_last() =~= Seq::<char>::empty());
    assert(seq!['\n'].drop_last() =~= Seq::<char>::empty());
    assert(Seq::<char>::empty().push(replacement) =~= seq![replacement]);
    if unbroken(first) && first.len() > 0 {
        let earlier = first.drop_last();
        assert(unbroken(earlier)) by {
            assert forall|i: int| 0 <= i < earlier.len() implies #[trigger] earlier[i] != '\n'
                && earlier[i] != '\r' by {
                assert(earlier[i] == first[i]);
            }
        }
        breaks_are_replaced_one_for_one(earlier, Seq::empty(), replacement);
        assert(first[first.len() - 1] != '\n' && first[first.len() - 1] != '\r');
        assert(earlier.push(first.last()) =~= first);
    }
    if !(first.len() > 0 && second.len() > 0 && first.last() == '\r' && second[0] == '\n') {
        lemma_breaks_apart(first, second, replacement);
    }
}

proof fn lemma_breaks_apart(first: Seq<char>, second: Seq<char>, replacement: char)
    requires
        !(first.len() > 0 && second.len() > 0 && first.last() == '\r' && second[0] == '\n'),
    ensures
        with_breaks(first + second, replacement) == with_breaks(first, replacement) + with_breaks(
            second,
            replacement,
        ),
    decreases second.len(),
{
    let whole = first + second;
    let left = with_breaks(first, replacement);
    if second.len() == 0 {
        assert(whole =~= first);
        assert(left + Seq::<char>::empty() =~= left);
    } else {
        let earlier = second.drop_last();
        assert(whole.drop_last() =~= first + earlier);
        assert(whole.last() == second.last());
        if earlier.len() > 0 {
            assert(earlier[0] == second[0]);
        }
        lemma_breaks_apart(first, earlier, replacement);
        let right = with_breaks(earlier, replacement);
        assert(whole.len() > 1 ==> (second.len() > 1 ==> whole[whole.len() - 2]
            == second[second.len() - 2]));
        assert(second.len() == 1 && first.len() > 0 ==> whole[whole.len() - 2] == first.last());
        assert((left + right).push(replacement) =~= left + right.push(replacement));
        assert((left + right).push(second.last()) =~= left + right.push(second.last()));
    }
}

/// The lines of two texts with a line feed between them are those of the one
/// followed by those of the other; text without a line feed is one line.
pub proof fn line_feeds_part_the_lines(first: Seq<char>, second: Seq<char>)
    ensures
        lines_of(first.push('\n') + second) == lines_of(first) + lines_of(second),
        (forall|i: int| 0 <= i < first.len() ==> #[trigger] first[i] != '\n') ==> lines_of(first)
            == seq![first],
    decreases second.len(),
{
    let whole = first.push('\n') + second;
    if second.len() == 0 {
        assert(whole.drop_last() =~= first);
        assert(whole.last() == '\n');
        assert(lines_of(second) =~= seq![Seq::<char>::empty()]);
        assert(lines_of(whole) =~= lines_of(first) + lines_of(second));
    } else {
        line_feeds_part_the_lines(first, second.drop_last());
        assert(whole.drop_last() =~= first.push('\n') + second.drop_last());
        assert(whole.last() == second.last());
        let left = lines_of(first);
        let right = lines_of(second.drop_last());
        lemma_some_line(second.drop_last());
        if second.last() == '\n' {
            assert((left + right).push(Seq::empty()) =~= left + right.push(Seq::empty()));
        } else {
            assert((left + right).last() == right.last());
            assert((left + right).drop_last() =~= left + right.drop_last());
            assert((left + right.drop_last()).push(right.last().push(second.last())) =~= left
                + right.drop_last().push(right.last().push(second.last())));
        }
    }
    if forall|i: int| 0 <= i < first.len() ==> #[trigger] first[i] != '\n' {
        lemma_one_line(first);
    }
}

proof fn lemma_one_line(source: Seq<char>)
    requires
        forall|i: int| 0 <= i < source.len() ==> #[trigger] source[i] != '\n',
    ensures
        lines_of(source) == seq![source],
    decreases source.len(),
{
    if source.len() > 0 {
        let earlier = source.drop_last();
        assert forall|i: int| 0 <= i < earlier.len() implies #[trigger] earlier[i] != '\n' by {
            assert(earlier[i] == source[i]);
        }
        lemma_one_line(earlier);
        assert(source[source.len() - 1] != '\n');
        assert(earlier.push(source.last()) =~= source);
        assert(lines_of(source) =~= seq![source]);
    } else {
        assert(source =~= Seq::<char>::empty());
        assert(lines_of(source) =~= seq![source]);
    }
}

/// Only what ends a text is cut off: the text that is left is its beginning,
/// nothing but breaks is gone, and it does not end in a break itself.
pub proof fn only_final_breaks_are_cut(source: Seq<char>)
    ensures
        without_final_breaks(source).len() <= source.len(),
        without_final_breaks(source) == source.take(without_final_breaks(source).len() as int),
        forall|i: int|
            without_final_breaks(source).len() <= i < source.len() ==> #[trigger] source[i] == '\n'
                || source[i] == '\r',
        without_final_breaks(source).len() > 0 ==> without_final_breaks(source).last() != '\n'
            && without_final_breaks(source).last() != '\r',
        without_final_feeds(source).len() <= source.len(),
        without_final_feeds(source) == source.take(without_final_feeds(source).len() as int),
        forall|i: int|
            without_final_feeds(source).len() <= i < source.len() ==> #[trigger] source[i] == '\n',
        without_final_feeds(source).len() > 0 ==> without_final_feeds(source).last() != '\n',
    decreases source.len(),
{
    if source.len() > 0 {
        let earlier = source.drop_last();
        only_final_breaks_are_cut(earlier);
        assert forall|k: int| 0 <= k <= earlier.len() implies #[trigger] earlier.take(k)
            == source.take(k) by {
            assert(earlier.take(k) =~= source.take(k));
        }
        assert forall|i: int| 0 <= i < earlier.len() implies #[trigger] source[i]
            == earlier[i] by {}
    }
    assert(source.take(source.len() as int) =~= source);
}

/// A description is shown behind a dash, whole and on one line, exactly where it
/// is wanted and there is one.
pub proof fn descriptions_are_shown_whole(source: Seq<char>, wanted: bool)
    ensures
        described(None, wanted) == Seq::<char>::empty(),
        described(Some(source), false) == Seq::<char>::empty(),
        unbroken(source) ==> described(Some(source), true) == " - "@ + source,
        described(Some(source), true) == " - "@ + with_breaks(source, ' '),
{
    breaks_are_replaced_one_for_one(source, Seq::empty(), ' ');
}

/// A schema requires a property exactly if the name of the property stands at
/// some position of its list, wherever that is; a longer list requires no less.
pub proof fn required_properties_are_listed(
    schema: Json,
    longer: Json,
    items: Seq<Json>,
    more: Seq<Json>,
    name: Seq<char>,
    k: int,
)
    requires
        member(schema, "required"@) == Some(Json::Array(items)),
        member(longer, "required"@) == Some(Json::Array(items + more)),
    ensures
        0 <= k < items.len() && items[k] == Json::Str(name) ==> requires_property(schema, name),
        (forall|i: int| 0 <= i < items.len() ==> #[trigger] items[i] != Json::Str(name))
            ==> !requires_property(schema, name),
        requires_property(schema, name) ==> requires_property(longer, name),
{
    if requires_property(schema, name) {
        let i = choose|i: int| 0 <= i < items.len() && #[trigger] items[i] == Json::Str(name);
        assert((items + more)[i] == Json::Str(name));
    }
}

/// Where a schema has no list of required properties, none is required.
pub proof fn without_a_list_nothing_is_required(schema: Json, name: Seq<char>)
    requires
        !(member(schema, "required"@) matches Some(Json::Array(_))),
    ensures
        !requires_property(schema, name),
{
}

/// The info view lists every property of a schema in the order of the names,
/// with the type that the schema states, and says of each whether it is
/// required.
pub proof fn every_parameter_is_listed(
    schema: Json,
    properties: Map<Seq<char>, Json>,
    name: Seq<char>,
    with_descriptions: bool,
)
    requires
        member(schema, "properties"@) == Some(Json::Object(properties)),
        properties.dom().finite(),
        properties.dom().contains(name),
    ensures
        ({
            let lines = parameter_lines(schema, with_descriptions);
            let names = order::ascending_list(properties.dom());
            let kind = match member(properties[name], "type"@) {
                Some(Json::Str(stated)) => stated,
                _ => "any"@,
            };
            let description = match member(properties[name], "description"@) {
                Some(Json::Str(stated)) => described(Some(stated), with_descriptions),
                _ => Seq::empty(),
            };
            let required = (member(schema, "required"@) matches Some(Json::Array(items))
                && exists|k: int| 0 <= k < items.len() && #[trigger] items[k] == Json::Str(name));
            &&& order::lists(names, properties.dom())
            &&& lines.len() == names.len() + 1
            &&& lines[0] == "    Parameters:"@
            &&& exists|at: int|
                0 <= at < names.len() && #[trigger] names[at] == name && lines[at + 1] == (if required {
                    "      • "@ + name + " ("@ + kind + ", "@ + "required"@ + ")"@ + description
                } else {
                    "      • "@ + name + " ("@ + kind + ", "@ + "optional"@ + ")"@ + description
                })
        }),
{
    order::finite_sets_have_an_ascending_list(properties.dom());
    let names = order::ascending_list(properties.dom());
    assert(names.contains(name));
    let at = choose|at: int| 0 <= at < names.len() && names[at] == name;
    let lines = parameter_lines(schema, with_descriptions);
    assert(lines[at + 1] == parameter_line(
        name,
        properties[name],
        requires_property(schema, name),
        with_descriptions,
    ));
    assert(names[at] == name);
}

/// Every tool has its lines in the info view, one tool after the other: its name,
/// its description where that is wanted, and its parameters.
pub proof fn every_tool_has_its_lines(
    first: Seq<ToolInfo>,
    second: Seq<ToolInfo>,
    tool: ToolInfo,
    with_descriptions: bool,
)
    ensures
        info_tools(Seq::empty(), with_descriptions) == Seq::<Seq<char>>::empty(),
        info_tools(first + second, with_descriptions) == info_tools(first, with_descriptions)
            + info_tools(second, with_descriptions),
        info_tools(seq![tool], with_descriptions) == seq!["  "@ + tool.name@] + (match (
            text::optional(tool.description),
            with_descriptions,
        ) {
            (Some(source), true) => block_lines(source, "    "@),
            _ => Seq::empty(),
        }) + parameter_lines(tool.input_schema@, with_descriptions),
    decreases second.len(),
{
    reveal_with_fuel(info_tools, 2);
    assert(seq![tool].drop_last() =~= Seq::<ToolInfo>::empty());
    assert(info_tools(seq![tool], with_descriptions) =~= info_tool_lines(tool, with_descriptions));
    let left = info_tools(first, with_descriptions);
    if second.len() == 0 {
        assert(first + second =~= first);
        assert(left + Seq::<Seq<char>>::empty() =~= left);
    } else {
        every_tool_has_its_lines(first, second.drop_last(), tool, with_descriptions);
        assert((first + second).drop_last() =~= first + second.drop_last());
        let middle = info_tools(second.drop_last(), with_descriptions);
        let last = info_tool_lines(second.last(), with_descriptions);
        assert(left + middle + last =~= left + (middle + last));
    }
}

/// The lines of a text block are the lines of the text, each behind the
/// indentation; a block without breaks is one line.
pub proof fn blocks_keep_their_lines(source: Seq<char>, indentation: Seq<char>)
    requires
        unbroken(source),
    ensures
        block_lines(source, indentation) == seq![indentation + source],
        block_lines(source.push('\n'), indentation) == seq![indentation + source],
{
    breaks_are_replaced_one_for_one(source, seq!['\n'], '\n');
    only_final_breaks_are_cut(source);
    only_final_breaks_are_cut(source.push('\n'));
    assert(source + seq!['\n'] =~= source.push('\n'));
    assert(source.push('\n').drop_last() =~= source);
    if source.len() > 0 {
        assert(source[source.len() - 1] != '\n');
    }
    assert(without_final_feeds(source) == source);
    assert(without_final_feeds(source.push('\n')) == source);
    lemma_one_line(source);
    assert(block_lines(source, indentation) =~= seq![indentation + source]);
    assert(block_lines(source.push('\n'), indentation) =~= seq![indentation + source]);
}

/// The info view names the server and its transport, shows the instructions
/// where there are any, counts the tools, and lists them.
pub proof fn info_views_show_everything(
    snapshot: &ServerSnapshot,
    with_descriptions: bool,
    shown: String,
)
    requires
        call_ensures(format_server_info, (snapshot, with_descriptions), shown),
    ensures
        shown@ == finished(
            seq!["Server: "@ + snapshot.server@] + (match snapshot.transport_summary {
                TransportSummary::Stdio { command } => seq![
                    "Transport: stdio"@,
                    "Command: "@ + command@,
                ],
                TransportSummary::Http { url } => seq!["Transport: HTTP"@, "URL: "@ + url@.text],
            }) + (match snapshot.instructions {
                Some(source) => seq![Seq::<char>::empty(), "Instructions:"@] + block_lines(
                    source@,
                    "  "@,
                ),
                None => Seq::empty(),
            }) + seq![
                Seq::<char>::empty(),
                "Tools ("@ + text::decimal(snapshot.tools@.len()) + "):"@,
            ] + (if snapshot.tools@.len() == 0 {
                seq!["  (none)"@]
            } else {
                info_tools(order::stable_sort(snapshot.tools@), with_descriptions)
            }),
        ),
{
}

/// The list view shows every server: a blank line stands between two servers,
/// each tool has a line of its own, and a failed server shows its message.
pub proof fn list_views_show_every_server(
    first: Seq<PerServer<ServerSnapshot>>,
    second: Seq<PerServer<ServerSnapshot>>,
    result: PerServer<ServerSnapshot>,
    with_descriptions: bool,
)
    ensures
        list_lines(seq![result], with_descriptions) == (match result {
            PerServer::Success { server, value } => seq![server@] + (if value.tools@.len() == 0 {
                seq!["  (no tools)"@]
            } else {
                order::stable_sort(value.tools@).map_values(
                    |tool: ToolInfo|
                        "  • "@ + tool.name@ + described(
                            text::optional(tool.description),
                            with_descriptions,
                        ),
                )
            }),
            PerServer::Failure { server, error } => seq![
                server@,
                "  <error: "@ + with_breaks(error@.message, ' ') + ">"@,
            ],
        }),
        first.len() > 0 && second.len() > 0 ==> list_lines(first + second, with_descriptions)
            == list_lines(first, with_descriptions) + seq![Seq::<char>::empty()] + list_lines(
            second,
            with_descriptions,
        ),
    decreases second.len(),
{
    reveal_with_fuel(list_lines, 2);
    assert(seq![result].drop_last() =~= Seq::<PerServer<ServerSnapshot>>::empty());
    assert(list_lines(seq![result], with_descriptions) =~= result_lines(
        result,
        with_descriptions,
    ));
    if let PerServer::Success { server, value } = result {
        if value.tools@.len() == 0 {
            assert(seq![server@, "  (no tools)"@] =~= seq![server@] + seq!["  (no tools)"@]);
        } else {
            assert(order::stable_sort(value.tools@).map_values(
                |tool: ToolInfo| tool_line(tool, with_descriptions),
            ) =~= order::stable_sort(value.tools@).map_values(
                |tool: ToolInfo|
                    "  • "@ + tool.name@ + described(
                        text::optional(tool.description),
                        with_descriptions,
                    ),
            ));
        }
    }
    if first.len() > 0 && second.len() > 0 {
        let left = list_lines(first, with_descriptions);
        let blank = seq![Seq::<char>::empty()];
        let last = result_lines(second.last(), with_descriptions);
        assert((first + second).drop_last() =~= first + second.drop_last());
        assert((first + second).last() == second.last());
        if second.len() == 1 {
            assert(first + second.drop_last() =~= first);
            assert(list_lines(second, with_descriptions) =~= last);
        } else {
            list_views_show_every_server(first, second.drop_last(), result, with_descriptions);
            let middle = list_lines(second.drop_last(), with_descriptions);
            assert(left + blank + middle + blank + last =~= left + blank + (middle + blank + last));
        }
    }
}

/// The list view of several results is that of the sorted results, and says so
/// where there are none; the view of one server is that of its tools.
pub proof fn lists_are_sorted_views(
    results: &[PerServer<ServerSnapshot>],
    with_descriptions: bool,
    listed: String,
    hits: &[SearchHit],
    found: String,
)
    requires
        call_ensures(format_server_list, (results, with_descriptions), listed),
        call_ensures(format_grep_hits, (hits, with_descriptions), found),
    ensures
        results@.len() == 0 ==> listed@ == finished(seq!["No servers configured."@]),
        results@.len() > 0 ==> listed@ == finished(
            list_lines(order::stable_sort(results@), with_descriptions),
        ),
        hits@.len() == 0 ==> found@ == finished(seq!["No matching tools found."@]),
        hits@.len() > 0 ==> found@ == finished(
            order::stable_sort(hits@).map_values(
                |hit: SearchHit|
                    hit.server@ + " "@ + hit.tool.name@ + described(
                        text::optional(hit.tool.description),
                        with_descriptions,
                    ),
            ),
        ),
{
    if hits@.len() > 0 {
        assert(order::stable_sort(hits@).map_values(
            |hit: SearchHit| hit_line(hit, with_descriptions),
        ) =~= order::stable_sort(hits@).map_values(
            |hit: SearchHit|
                hit.server@ + " "@ + hit.tool.name@ + described(
                    text::optional(hit.tool.description),
                    with_descriptions,
                ),
        ));
    }
}

/// Tools stand in the order of their names, hits in that of their servers and
/// then of their names, and results in that of their servers.
pub proof fn names_decide_the_order(
    left: ToolInfo,
    right: ToolInfo,
    hit: SearchHit,
    other: SearchHit,
    result: PerServer<ServerSnapshot>,
    further: PerServer<ServerSnapshot>,
)
    ensures
        text::text_before(left.name@, right.name@) ==> left.ranks_before(&right)
            && !right.ranks_before(&left),
        text::text_before(hit.server@, other.server@) ==> hit.ranks_before(&other)
            && !other.ranks_before(&hit),
        hit.server@ == other.server@ && text::text_before(hit.tool.name@, other.tool.name@)
            ==> hit.ranks_before(&other) && !other.ranks_before(&hit),
        text::text_before(domain::server_of(result), domain::server_of(further))
            ==> result.ranks_before(&further) && !further.ranks_before(&result),
        domain::server_of(result) == domain::server_of(further) && result is Success && further
            is Failure ==> result.ranks_before(&further) && !further.ranks_before(&result),
{
    text::lemma_text_before_total(left.name@, right.name@);
    text::lemma_text_before_total(hit.server@, other.server@);
    text::lemma_text_before_total(hit.tool.name@, other.tool.name@);
    text::lemma_text_before_total(domain::server_of(result), domain::server_of(further));
}

/// A structured error says its kind and its message, and its details and its
/// suggestion on lines of their own exactly where it has them.
pub proof fn structured_errors_say_everything(failure: &CliError, shown: String)
    requires
        call_ensures(render_structured_error, (failure,), shown),
    ensures
        failure@.details is None && failure@.suggestion is None ==> shown@ == "Error ["@
            + error::kind_text(failure@.kind) + "]:"@ + " "@ + failure@.message + "\n"@,
        failure@.suggestion is None ==> (failure@.details matches Some(details) ==> shown@
            == "Error ["@ + error::kind_text(failure@.kind) + "]:"@ + " "@ + failure@.message
            + "\n  Details: "@ + details + "\n"@),
        failure@.details is None ==> (failure@.suggestion matches Some(suggestion) ==> shown@
            == "Error ["@ + error::kind_text(failure@.kind) + "]:"@ + " "@ + failure@.message
            + "\n  Suggestion: "@ + suggestion + "\n"@),
        failure@.details matches Some(details) ==> (failure@.suggestion matches Some(suggestion)
            ==> shown@ == "Error ["@ + error::kind_text(failure@.kind) + "]:"@ + " "@
            + failure@.message + "\n  Details: "@ + details + "\n  Suggestion: "@ + suggestion
            + "\n"@),
{
    let start = "Error ["@ + error::kind_text(failure@.kind) + "]:"@ + " "@ + failure@.message;
    assert(start + Seq::<char>::empty() =~= start);
    if let Some(details) = failure@.details {
        assert(start + ("\n  Details: "@ + details) =~= start + "\n  Details: "@ + details);
        let more = start + "\n  Details: "@ + details;
        assert(more + Seq::<char>::empty() =~= more);
        if let Some(suggestion) = failure@.suggestion {
            assert(more + ("\n  Suggestion: "@ + suggestion) =~= more + "\n  Suggestion: "@
                + suggestion);
        }
    } else {
        if let Some(suggestion) = failure@.suggestion {
            assert(start + ("\n  Suggestion: "@ + suggestion) =~= start + "\n  Suggestion: "@
                + suggestion);
        }
    }
}

/// Styles are used on terminals only, and never where colour is switched off; a
/// styled fragment is the fragment between its escape and the reset.
pub proof fn styles_need_a_terminal(
    fragment: &str,
    ansi: &str,
    policy: StylePolicy,
    allowed: bool,
    shown: String,
)
    requires
        call_ensures(StylePolicy::allows_ansi, (policy,), allowed),
        call_ensures(style_fragment, (fragment, ansi, policy), shown),
    ensures
        allowed <==> policy.is_tty && !policy.no_color,
        !policy.is_tty || policy.no_color ==> shown@ == fragment@,
        policy.is_tty && !policy.no_color && fragment@.len() > 0 ==> shown@ == ansi@ + fragment@
            + "\x1b[0m"@,
        fragment@.len() == 0 ==> shown@ == fragment@,
{
}

/// Presenters write what they are given: a value as its compact text and a line
/// feed, nothing for nothing, and a text without its final breaks and with one
/// line feed.
pub proof fn presenters_write_what_they_are_given(
    json_presenter: &JsonPresenter,
    text_presenter: &PlainTextPresenter,
    outcome: CommandOutcome,
    style: StylePolicy,
    as_json: Result<Vec<u8>, CliError>,
    as_text: Result<Vec<u8>, CliError>,
)
    requires
        call_ensures(JsonPresenter::render, (json_presenter, outcome, style), as_json),
        call_ensures(PlainTextPresenter::render, (text_presenter, outcome, style), as_text),
    ensures
        outcome matches CommandOutcome::Json(value) ==> (as_json matches Ok(bytes) && bytes@
            == json::json_text(value@).push(10u8)) && (as_text matches Ok(bytes) && bytes@
            == json::json_text(value@).push(10u8)),
        outcome is Empty ==> (as_json matches Ok(bytes) && bytes@.len() == 0) && (as_text matches
            Ok(bytes) && bytes@.len() == 0),
        outcome is HumanText ==> as_json is Err,
        outcome matches CommandOutcome::HumanText(source) ==> (as_text matches Ok(bytes) && (
        !style.is_tty || style.no_color ==> bytes@ == vstd::utf8::encode_utf8(
            without_final_breaks(source@),
        ).push(10u8)) && (style.is_tty && !style.no_color && without_final_breaks(source@).len() > 0
            ==> bytes@ == vstd::utf8::encode_utf8(
            "\x1b[1;36m"@ + without_final_breaks(source@) + "\x1b[0m"@,
        ).push(10u8))),
{
}

/// A JSON value, a schema and a tool result are written as they are, each as one
/// line.
pub proof fn documents_are_written_as_one_line(
    value: &JsonValue,
    result: &ToolResult,
    document: Result<Vec<u8>, CliError>,
    schema: Result<Vec<u8>, CliError>,
    outcome: Result<Vec<u8>, CliError>,
)
    requires
        call_ensures(format_json_value, (value,), document),
        call_ensures(format_json_schema, (value,), schema),
        call_ensures(format_tool_result, (result,), outcome),
    ensures
        document matches Ok(written) && written@ == json::json_text(value@).push(10),
        schema matches Ok(written) && written@ == json::json_text(value@).push(10),
        outcome matches Ok(written) && written@ == json::json_text(result@).push(10),
{
}

} // verus!
