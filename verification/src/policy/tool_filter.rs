//! Tool visibility and authorization policy.

use vstd::prelude::*;

use crate::config::ToolFilterConfig;
use crate::domain::ToolInfo;
use crate::text;
use crate::text::{chars_of, scalar_eq_ignore_case};

verus! {

/// Whether a tool glob matches a complete name.
///
/// `*` consumes any run of scalar values (also `/`), `?` consumes exactly one
/// scalar value, and every other character consumes one scalar value that is
/// the same letter.
pub open spec fn glob_match(pattern: Seq<char>, name: Seq<char>) -> bool
    decreases pattern.len(),
{
    if pattern.len() == 0 {
        name.len() == 0
    } else if pattern[0] == '*' {
        exists|k: int|
            0 <= k <= name.len() && glob_match(pattern.skip(1), #[trigger] name.skip(k))
    } else {
        &&& name.len() > 0
        &&& pattern[0] == '?' || text::same_letter(pattern[0], name[0])
        &&& glob_match(pattern.skip(1), name.skip(1))
    }
}

#[derive(Clone, Copy, Debug, PartialEq, Eq, Structural)]
enum PatternToken {
    AnySequence,
    AnyScalar,
    Literal(char),
}

/// A compiled, anchored glob pattern for a complete tool name.
///
/// Only `*` and `?` have special meaning. `*` consumes zero or more Unicode
/// scalar values (including `/`), while `?` consumes exactly one Unicode
/// scalar value. Every other character is matched literally.
#[derive(Clone, Debug)]
pub struct ToolPattern {
    tokens: Vec<PatternToken>,
}

spec fn token_of(c: char) -> PatternToken {
    if c == '*' {
        PatternToken::AnySequence
    } else if c == '?' {
        PatternToken::AnyScalar
    } else {
        PatternToken::Literal(c)
    }
}

/// One token other than a star takes exactly this character.
spec fn takes(token: PatternToken, c: char) -> bool {
    match token {
        PatternToken::AnySequence => false,
        PatternToken::AnyScalar => true,
        PatternToken::Literal(expected) => text::same_letter(expected, c),
    }
}

/// Whether the tokens match the whole of `name`.
spec fn tokens_match(tokens: Seq<PatternToken>, name: Seq<char>) -> bool
    decreases tokens.len(),
{
    if tokens.len() == 0 {
        name.len() == 0
    } else if tokens[0] == PatternToken::AnySequence {
        exists|k: int|
            0 <= k <= name.len() && tokens_match(tokens.skip(1), #[trigger] name.skip(k))
    } else {
        &&& name.len() > 0
        &&& takes(tokens[0], name[0])
        &&& tokens_match(tokens.skip(1), name.skip(1))
    }
}

/// The tokens from `p` on match the name from `n` on.
spec fn rest_match(tokens: Seq<PatternToken>, p: int, name: Seq<char>, n: int) -> bool {
    tokens_match(tokens.skip(p), name.skip(n))
}

proof fn lemma_rest_match(tokens: Seq<PatternToken>, p: int, name: Seq<char>, n: int)
    requires
        0 <= p <= tokens.len(),
        0 <= n <= name.len(),
    ensures
        p == tokens.len() ==> (rest_match(tokens, p, name, n) <==> n == name.len()),
        p < tokens.len() && tokens[p] == PatternToken::AnySequence ==> (rest_match(
            tokens,
            p,
            name,
            n,
        ) <==> exists|k: int| n <= k <= name.len() && #[trigger] rest_match(tokens, p + 1, name, k)),
        p < tokens.len() && tokens[p] != PatternToken::AnySequence ==> (rest_match(
            tokens,
            p,
            name,
            n,
        ) <==> n < name.len() && takes(tokens[p], name[n]) && rest_match(
            tokens,
            p + 1,
            name,
            n + 1,
        )),
{
    if p < tokens.len() {
        let t = tokens.skip(p);
        let s = name.skip(n);
        assert(t.skip(1) =~= tokens.skip(p + 1));
        if tokens[p] == PatternToken::AnySequence {
            if rest_match(tokens, p, name, n) {
                let k = choose|k: int|
                    0 <= k <= s.len() && tokens_match(t.skip(1), #[trigger] s.skip(k));
                assert(s.skip(k) =~= name.skip(n + k));
                assert(rest_match(tokens, p + 1, name, n + k));
            }
            if exists|k: int| n <= k <= name.len() && #[trigger] rest_match(tokens, p + 1, name, k) {
                let k = choose|k: int|
                    n <= k <= name.len() && #[trigger] rest_match(tokens, p + 1, name, k);
                assert(s.skip(k - n) =~= name.skip(k));
                assert(tokens_match(t.skip(1), s.skip(k - n)));
            }
        } else if n < name.len() {
            assert(s.skip(1) =~= name.skip(n + 1));
        }
    }
}

/// Tokens without a star consume exactly one character each.
proof fn lemma_fixed_tokens(tokens: Seq<PatternToken>, p: int, q: int, name: Seq<char>, n: int)
    requires
        0 <= p <= q <= tokens.len(),
        0 <= n <= name.len(),
        forall|i: int| p <= i < q ==> tokens[i] != PatternToken::AnySequence,
        rest_match(tokens, p, name, n),
    ensures
        n + (q - p) <= name.len(),
        rest_match(tokens, q, name, n + (q - p)),
    decreases q - p,
{
    if p < q {
        lemma_rest_match(tokens, p, name, n);
        lemma_fixed_tokens(tokens, p + 1, q, name, n + 1);
    }
}

/// A star that matches from `later` on also matches from any earlier position.
proof fn lemma_star_absorbs(tokens: Seq<PatternToken>, p: int, name: Seq<char>, earlier: int, later: int)
    requires
        0 <= p < tokens.len(),
        tokens[p] == PatternToken::AnySequence,
        0 <= earlier <= later <= name.len(),
        rest_match(tokens, p, name, later),
    ensures
        rest_match(tokens, p, name, earlier),
{
    lemma_rest_match(tokens, p, name, later);
    lemma_rest_match(tokens, p, name, earlier);
}

/// Two adjacent stars match what one star matches.
proof fn lemma_adjacent_stars(head: Seq<PatternToken>, tail: Seq<PatternToken>, name: Seq<char>)
    requires
        head.len() > 0,
        head.last() == PatternToken::AnySequence,
    ensures
        tokens_match(head + seq![PatternToken::AnySequence] + tail, name) <==> tokens_match(
            head + tail,
            name,
        ),
    decreases head.len(),
{
    let star = seq![PatternToken::AnySequence];
    let double = head + star + tail;
    let single = head + tail;
    assert(double.skip(1) =~= head.skip(1) + star + tail);
    assert(single.skip(1) =~= head.skip(1) + tail);
    if head.len() == 1 {
        assert(head.skip(1) + star + tail =~= star + tail);
        assert(head.skip(1) + tail =~= tail);
        assert((star + tail).skip(1) =~= tail);
        if tokens_match(double, name) {
            let k = choose|k: int|
                0 <= k <= name.len() && tokens_match(double.skip(1), #[trigger] name.skip(k));
            let rest = name.skip(k);
            let j = choose|j: int| 0 <= j <= rest.len() && tokens_match(tail, #[trigger] rest.skip(j));
            assert(rest.skip(j) =~= name.skip(k + j));
            assert(tokens_match(single.skip(1), name.skip(k + j)));
        }
        if tokens_match(single, name) {
            let k = choose|k: int|
                0 <= k <= name.len() && tokens_match(single.skip(1), #[trigger] name.skip(k));
            assert(name.skip(k).skip(0) =~= name.skip(k));
            assert(tokens_match((star + tail).skip(1), name.skip(k).skip(0)));
            assert(tokens_match(double.skip(1), name.skip(k)));
        }
    } else {
        assert(head.skip(1).last() == head.last());
        if head[0] == PatternToken::AnySequence {
            assert forall|k: int| 0 <= k <= name.len() implies (tokens_match(double.skip(1), #[trigger] name.skip(k)) <==> tokens_match(single.skip(1), name.skip(k))) by {
                lemma_adjacent_stars(head.skip(1), tail, name.skip(k));
            }
            if tokens_match(single, name) {
                let k = choose|k: int|
                    0 <= k <= name.len() && tokens_match(single.skip(1), #[trigger] name.skip(k));
                assert(tokens_match(double.skip(1), name.skip(k)));
            }
        } else if name.len() > 0 {
            lemma_adjacent_stars(head.skip(1), tail, name.skip(1));
        }
    }
}

/// Token by token compilation keeps the meaning of the pattern.
proof fn lemma_tokens_of_pattern(pattern: Seq<char>, name: Seq<char>)
    ensures
        tokens_match(tokens_of(pattern), name) <==> glob_match(pattern, name),
    decreases pattern.len(),
{
    let tokens = tokens_of(pattern);
    if pattern.len() > 0 {
        assert(tokens.skip(1) =~= tokens_of(pattern.skip(1)));
        if pattern[0] == '*' {
            assert forall|k: int| 0 <= k <= name.len() implies (tokens_match(tokens.skip(1), #[trigger] name.skip(k)) <==> glob_match(pattern.skip(1), name.skip(k))) by {
                lemma_tokens_of_pattern(pattern.skip(1), name.skip(k));
            }
            if glob_match(pattern, name) {
                let k = choose|k: int|
                    0 <= k <= name.len() && glob_match(pattern.skip(1), #[trigger] name.skip(k));
                assert(tokens_match(tokens.skip(1), name.skip(k)));
            }
        } else if name.len() > 0 {
            lemma_tokens_of_pattern(pattern.skip(1), name.skip(1));
        }
    }
}

/// The pattern with every run of stars shortened to one star.
pub open spec fn single_stars(pattern: Seq<char>) -> Seq<char>
    decreases pattern.len(),
{
    if pattern.len() == 0 {
        Seq::empty()
    } else {
        let before = single_stars(pattern.drop_last());
        if pattern.last() == '*' && before.len() > 0 && before.last() == '*' {
            before
        } else {
            before.push(pattern.last())
        }
    }
}

/// The token of each character.
spec fn tokens_of(pattern: Seq<char>) -> Seq<PatternToken> {
    pattern.map_values(|c: char| token_of(c))
}

/// Shortening runs of stars keeps what the tokens match.
proof fn lemma_single_stars(pattern: Seq<char>, rest: Seq<PatternToken>, name: Seq<char>)
    ensures
        tokens_match(tokens_of(single_stars(pattern)) + rest, name) <==> tokens_match(
            tokens_of(pattern) + rest,
            name,
        ),
    decreases pattern.len(),
{
    if pattern.len() > 0 {
        let last = seq![token_of(pattern.last())];
        let before = single_stars(pattern.drop_last());
        lemma_single_stars(pattern.drop_last(), last + rest, name);
        assert(tokens_of(pattern.drop_last()) + (last + rest) =~= tokens_of(pattern) + rest);
        if pattern.last() == '*' && before.len() > 0 && before.last() == '*' {
            lemma_adjacent_stars(tokens_of(before), rest, name);
            assert(tokens_of(before) + (last + rest) =~= tokens_of(before) + seq![
                PatternToken::AnySequence,
            ] + rest);
        } else {
            assert(tokens_of(before.push(pattern.last())) + rest =~= tokens_of(before) + (last
                + rest));
        }
    }
}

proof fn lemma_stars_stay_single(pattern: Seq<char>)
    ensures
        single_stars(single_stars(pattern)) == single_stars(pattern),
    decreases pattern.len(),
{
    if pattern.len() > 0 {
        let before = single_stars(pattern.drop_last());
        lemma_stars_stay_single(pattern.drop_last());
        assert(before.push(pattern.last()).drop_last() =~= before);
    }
}

impl ToolPattern {
    /// Whether the pattern accepts the complete name.
    pub closed spec fn accepts(&self, name: Seq<char>) -> bool {
        tokens_match(self.tokens@, name)
    }

    /// Both patterns have the same compiled form.
    pub closed spec fn same_form(&self, other: &Self) -> bool {
        self.tokens@ == other.tokens@
    }

    /// This is the compiled form of the pattern.
    pub closed spec fn compiled_from(&self, pattern: Seq<char>) -> bool {
        self.tokens@ == tokens_of(single_stars(pattern))
    }

    /// Compiles a tool glob. Compilation is infallible because non-glob
    /// characters never acquire regular-expression semantics.
    pub fn new(pattern: &str) -> (r: Self)
        ensures
            r.compiled_from(pattern@),
            forall|name: Seq<char>| #[trigger] r.accepts(name) <==> glob_match(pattern@, name),
    {
        let characters = chars_of(pattern);
        let mut tokens: Vec<PatternToken> = Vec::with_capacity(characters.len());
        let mut index: usize = 0;
        assert(tokens@ =~= tokens_of(single_stars(pattern@.take(0))));
        while index < characters.len()
            invariant
                characters@ == pattern@,
                index <= characters.len(),
                tokens@ == tokens_of(single_stars(pattern@.take(index as int))),
            decreases characters.len() - index,
        {
            let token = match characters[index] {
                '*' => PatternToken::AnySequence,
                '?' => PatternToken::AnyScalar,
                literal => PatternToken::Literal(literal),
            };
            let ghost before = single_stars(pattern@.take(index as int));
            assert(pattern@.take(index + 1).drop_last() =~= pattern@.take(index as int));
            // Adjacent stars are equivalent to one star and needlessly expand
            // the matcher state, so normalize them while compiling.
            let repeated = token == PatternToken::AnySequence && tokens.len() > 0
                && tokens[tokens.len() - 1] == PatternToken::AnySequence;
            if !repeated {
                let ghost earlier = tokens@;
                tokens.push(token);
                assert(token == token_of(pattern@[index as int]));
                assert(tokens@ =~= earlier.push(token));
                assert(tokens_of(before.push(pattern@[index as int])) =~= tokens_of(before).push(
                    token_of(pattern@[index as int]),
                ));
            }
            index += 1;
        }
        assert(pattern@.take(index as int) =~= pattern@);
        let r = ToolPattern { tokens };
        assert forall|name: Seq<char>| #[trigger] r.accepts(name) <==> glob_match(pattern@, name) by {
            lemma_single_stars(pattern@, Seq::empty(), name);
            assert(tokens@ + Seq::<PatternToken>::empty() =~= tokens@);
            assert(tokens_of(pattern@) + Seq::<PatternToken>::empty() =~= tokens_of(pattern@));
            lemma_tokens_of_pattern(pattern@, name);
        }
        r
    }

    /// Returns whether this pattern matches the complete tool name.
    pub fn is_match(&self, tool_name: &str) -> (r: bool)
        ensures
            r == self.accepts(tool_name@),
    {
        let name = chars_of(tool_name);
        let mut pattern_index: usize = 0;
        let mut name_index: usize = 0;
        let mut last_star: Option<usize> = None;
        let mut star_match_end: usize = 0;
        let ghost tokens = self.tokens@;
        assert(tokens.skip(0) =~= tokens);
        assert(name@.skip(0) =~= name@);
        while name_index < name.len()
            invariant
                tokens == self.tokens@,
                name@ == tool_name@,
                pattern_index <= tokens.len(),
                name_index <= name.len(),
                star_match_end <= name_index,
                last_star is None ==> star_match_end == 0 && (tokens_match(tokens, name@)
                    <==> rest_match(tokens, pattern_index as int, name@, name_index as int)),
                last_star matches Some(star) ==> {
                    &&& star < pattern_index
                    &&& tokens[star as int] == PatternToken::AnySequence
                    &&& forall|i: int|
                        star < i < pattern_index ==> tokens[i] != PatternToken::AnySequence
                    &&& name_index - star_match_end == pattern_index - (star + 1)
                    &&& tokens_match(tokens, name@) <==> (rest_match(
                        tokens,
                        pattern_index as int,
                        name@,
                        name_index as int,
                    ) || exists|k: int|
                        star_match_end < k <= name.len() && #[trigger] rest_match(
                            tokens,
                            star + 1,
                            name@,
                            k,
                        ))
                },
            decreases
                    tokens.len() - (match last_star {
                        Some(star) => star + 1,
                        None => 0,
                    }),
                    name.len() - star_match_end,
                    name.len() - name_index,
        {
            proof {
                lemma_rest_match(tokens, pattern_index as int, name@, name_index as int);
            }
            if pattern_index < self.tokens.len() && self.tokens[pattern_index]
                == PatternToken::AnySequence {
                proof {
                    if let Some(star) = last_star {
                        if exists|k: int|
                            star_match_end < k <= name.len() && #[trigger] rest_match(
                                tokens,
                                star + 1,
                                name@,
                                k,
                            ) {
                            let k = choose|k: int|
                                star_match_end < k <= name.len() && #[trigger] rest_match(
                                    tokens,
                                    star + 1,
                                    name@,
                                    k,
                                );
                            let later = k + (pattern_index - (star + 1));
                            lemma_fixed_tokens(tokens, star + 1, pattern_index as int, name@, k);
                            lemma_star_absorbs(
                                tokens,
                                pattern_index as int,
                                name@,
                                name_index as int,
                                later,
                            );
                        }
                    }
                }
                last_star = Some(pattern_index);
                pattern_index += 1;
                star_match_end = name_index;
                continue ;
            }
            let consumed = if pattern_index < self.tokens.len() {
                match self.tokens[pattern_index] {
                    PatternToken::AnySequence => false,
                    PatternToken::AnyScalar => true,
                    PatternToken::Literal(expected) => scalar_eq_ignore_case(
                        expected,
                        name[name_index],
                    ),
                }
            } else {
                false
            };
            if consumed {
                pattern_index += 1;
                name_index += 1;
            } else {
                match last_star {
                    None => {
                        return false;
                    },
                    Some(star_index) => {
                        // Retry the suffix after allowing the most recent `*` to
                        // consume one additional Unicode scalar value.
                        star_match_end += 1;
                        name_index = star_match_end;
                        pattern_index = star_index + 1;
                    },
                }
            }
        }
        proof {
            if let Some(star) = last_star {
                assert forall|k: int| star_match_end < k <= name.len() implies !(#[trigger] rest_match(
                    tokens,
                    star + 1,
                    name@,
                    k,
                )) by {
                    if rest_match(tokens, star + 1, name@, k) {
                        lemma_fixed_tokens(tokens, star + 1, pattern_index as int, name@, k);
                    }
                }
            }
        }
        while pattern_index < self.tokens.len() && self.tokens[pattern_index]
            == PatternToken::AnySequence
            invariant
                tokens == self.tokens@,
                pattern_index <= tokens.len(),
                tokens_match(tokens, name@) <==> rest_match(
                    tokens,
                    pattern_index as int,
                    name@,
                    name@.len() as int,
                ),
            decreases tokens.len() - pattern_index,
        {
            proof {
                lemma_rest_match(tokens, pattern_index as int, name@, name@.len() as int);
                assert(forall|k: int|
                    name@.len() <= k <= name@.len() ==> (#[trigger] rest_match(
                        tokens,
                        pattern_index + 1,
                        name@,
                        k,
                    ) <==> rest_match(tokens, pattern_index + 1, name@, name@.len() as int)));
            }
            pattern_index += 1;
        }
        proof {
            lemma_rest_match(tokens, pattern_index as int, name@, name@.len() as int);
        }
        pattern_index == self.tokens.len()
    }
}


impl PartialEq for ToolPattern {
    fn eq(&self, other: &Self) -> (r: bool) {
        if self.tokens.len() != other.tokens.len() {
            return false;
        }
        let mut index: usize = 0;
        while index < self.tokens.len()
            invariant
                self.tokens.len() == other.tokens.len(),
                index <= self.tokens.len(),
                forall|i: int| 0 <= i < index ==> self.tokens@[i] == other.tokens@[i],
            decreases self.tokens.len() - index,
        {
            if self.tokens[index] != other.tokens[index] {
                assert(self.tokens@[index as int] != other.tokens@[index as int]);
                return false;
            }
            index += 1;
        }
        assert(self.tokens@ =~= other.tokens@);
        true
    }
}

impl vstd::std_specs::cmp::PartialEqSpecImpl for ToolPattern {
    open spec fn obeys_eq_spec() -> bool {
        true
    }

    open spec fn eq_spec(&self, other: &Self) -> bool {
        self.same_form(other)
    }
}

impl Eq for ToolPattern {

}

/// A value that exposes the complete MCP tool name used for authorization.
pub trait ToolNamed {
    /// The complete tool name.
    spec fn full_name(&self) -> Seq<char>;

    fn tool_name(&self) -> (r: &str)
        ensures
            r@ == self.full_name(),
    ;
}

impl ToolNamed for ToolInfo {
    open spec fn full_name(&self) -> Seq<char> {
        self.name@
    }

    fn tool_name(&self) -> &str {
        self.name.as_str()
    }
}

/// One of the patterns matches the name.
pub open spec fn any_match(patterns: Seq<Seq<char>>, name: Seq<char>) -> bool {
    exists|i: int| 0 <= i < patterns.len() && glob_match(#[trigger] patterns[i], name)
}

/// Whether a configuration lets a tool be seen and called: no disabled pattern
/// matches it, and an allowed pattern does if there is any.
pub open spec fn tool_allowed(
    allowed: Seq<Seq<char>>,
    disabled: Seq<Seq<char>>,
    name: Seq<char>,
) -> bool {
    !any_match(disabled, name) && (allowed.len() == 0 || any_match(allowed, name))
}

/// One of the compiled patterns accepts the name.
spec fn any_accepts(patterns: Seq<ToolPattern>, name: Seq<char>) -> bool {
    exists|i: int| 0 <= i < patterns.len() && (#[trigger] patterns[i]).accepts(name)
}

fn compile_all(patterns: &Vec<String>) -> (r: Vec<ToolPattern>)
    ensures
        r@.len() == patterns@.len(),
        forall|name: Seq<char>| #[trigger]
            any_accepts(r@, name) <==> any_match(text::texts(patterns@), name),
{
    let mut compiled: Vec<ToolPattern> = Vec::new();
    let mut index: usize = 0;
    while index < patterns.len()
        invariant
            index <= patterns.len(),
            compiled@.len() == index,
            forall|i: int, name: Seq<char>|
                0 <= i < index ==> (#[trigger] compiled@[i].accepts(name) <==> glob_match(
                    patterns@[i]@,
                    name,
                )),
        decreases patterns.len() - index,
    {
        compiled.push(ToolPattern::new(patterns[index].as_str()));
        index += 1;
    }
    proof {
        let sources = text::texts(patterns@);
        assert forall|name: Seq<char>| #[trigger] any_accepts(compiled@, name) <==> any_match(
            sources,
            name,
        ) by {
            if any_accepts(compiled@, name) {
                let i = choose|i: int|
                    0 <= i < compiled@.len() && (#[trigger] compiled@[i]).accepts(name);
                assert(glob_match(sources[i], name));
            }
            if any_match(sources, name) {
                let i = choose|i: int|
                    0 <= i < sources.len() && glob_match(#[trigger] sources[i], name);
                assert(sources[i] == patterns@[i]@);
                assert(compiled@[i].accepts(name));
            }
        }
    }
    compiled
}

fn any_is_match(patterns: &Vec<ToolPattern>, tool_name: &str) -> (r: bool)
    ensures
        r == any_accepts(patterns@, tool_name@),
{
    let mut index: usize = 0;
    while index < patterns.len()
        invariant
            index <= patterns.len(),
            forall|i: int| 0 <= i < index ==> !(#[trigger] patterns@[i]).accepts(tool_name@),
        decreases patterns.len() - index,
    {
        if patterns[index].is_match(tool_name) {
            return true;
        }
        index += 1;
    }
    false
}

/// Compiled visibility and invocation policy for one server.
#[derive(Clone, Debug, PartialEq, Eq)]
pub struct ToolFilter {
    allowed: Vec<ToolPattern>,
    disabled: Vec<ToolPattern>,
}

impl Default for ToolFilter {
    /// The policy that allows every tool.
    fn default() -> (r: Self)
        ensures
            forall|name: Seq<char>| #[trigger] r.allows(name),
    {
        ToolFilter { allowed: Vec::new(), disabled: Vec::new() }
    }
}

impl ToolFilter {
    /// Whether the policy lets a tool be seen and called.
    pub closed spec fn allows(&self, name: Seq<char>) -> bool {
        !any_accepts(self.disabled@, name) && (self.allowed@.len() == 0 || any_accepts(
            self.allowed@,
            name,
        ))
    }

    /// Compiles the existing configuration model into a reusable policy.
    pub fn new(config: &ToolFilterConfig) -> (r: Self)
        ensures
            forall|name: Seq<char>| #[trigger]
                r.allows(name) <==> tool_allowed(
                    text::texts(config.allowed_tools@),
                    text::texts(config.disabled_tools@),
                    name,
                ),
    {
        ToolFilter {
            allowed: compile_all(&config.allowed_tools),
            disabled: compile_all(&config.disabled_tools),
        }
    }

    /// Returns the single authorization decision shared by discovery and call.
    pub fn is_allowed(&self, tool_name: &str) -> (r: bool)
        ensures
            r == self.allows(tool_name@),
    {
        if any_is_match(&self.disabled, tool_name) {
            return false;
        }
        self.allowed.len() == 0 || any_is_match(&self.allowed, tool_name)
    }

    /// Removes unauthorized tools without changing the order of the survivors.
    pub fn filter<T: ToolNamed>(&self, tools: Vec<T>) -> (r: Vec<T>)
        ensures
            r@ == tools@.filter(|tool: T| self.allows(tool.full_name())),
    {
        let ghost all = tools@;
        let ghost keeps = |tool: T| self.allows(tool.full_name());
        let mut kept: Vec<T> = Vec::new();
        assert(all.take(0).filter(keeps) =~= Seq::<T>::empty()) by {
            reveal(Seq::filter);
        }
        for tool in it: tools
            invariant
                it.seq() == all,
                keeps == (|tool: T| self.allows(tool.full_name())),
                kept@ == all.take(it.index() as int).filter(keeps),
        {
            proof {
                let i = it.index() as int;
                assert(all.take(i + 1).drop_last() =~= all.take(i));
                assert(all.take(i + 1).last() == tool);
                reveal(Seq::filter);
            }
            if self.is_allowed(tool.tool_name()) {
                kept.push(tool);
            }
        }
        assert(all.take(all.len() as int) =~= all);
        kept
    }
}

/// A name is only matched as a whole: a pattern without wildcards matches
/// nothing that is longer or shorter than itself.
pub proof fn literal_patterns_are_anchored(pattern: Seq<char>, name: Seq<char>)
    requires
        forall|i: int| 0 <= i < pattern.len() ==> #[trigger] pattern[i] != '*',
    ensures
        glob_match(pattern, name) ==> name.len() == pattern.len(),
    decreases pattern.len(),
{
    if pattern.len() > 0 && name.len() > 0 {
        assert(pattern[0] != '*');
        assert forall|i: int| 0 <= i < pattern.skip(1).len() implies #[trigger] pattern.skip(1)[i]
            != '*' by {
            assert(pattern.skip(1)[i] == pattern[i + 1]);
        }
        literal_patterns_are_anchored(pattern.skip(1), name.skip(1));
    }
}

/// A lone star matches every name.
pub proof fn star_matches_every_name(name: Seq<char>)
    ensures
        glob_match(seq!['*'], name),
{
    reveal_with_fuel(glob_match, 2);
    assert(name.skip(name.len() as int).len() == 0);
    assert(glob_match(seq!['*'].skip(1), name.skip(name.len() as int)));
}

/// Runs of stars are alike: with each of them shortened to one star, a pattern
/// compiles to an equal one and matches the same names.
pub proof fn star_runs_are_one_star(
    long: ToolPattern,
    short: ToolPattern,
    pattern: Seq<char>,
    name: Seq<char>,
)
    requires
        long.compiled_from(pattern),
        short.compiled_from(single_stars(pattern)),
    ensures
        long.same_form(&short),
        long.accepts(name) <==> short.accepts(name),
        glob_match(single_stars(pattern), name) <==> glob_match(pattern, name),
{
    let none = Seq::<PatternToken>::empty();
    let single = single_stars(pattern);
    lemma_stars_stay_single(pattern);
    lemma_single_stars(pattern, none, name);
    assert(tokens_of(single) + none =~= tokens_of(single));
    assert(tokens_of(pattern) + none =~= tokens_of(pattern));
    lemma_tokens_of_pattern(pattern, name);
    lemma_tokens_of_pattern(single, name);
}

/// A tool that a disabled pattern matches is refused, whatever is allowed.
pub proof fn disabled_patterns_win(
    allowed: Seq<Seq<char>>,
    disabled: Seq<Seq<char>>,
    name: Seq<char>,
)
    requires
        any_match(disabled, name),
    ensures
        !tool_allowed(allowed, disabled, name),
{
}

/// Without allowed patterns every tool that is not disabled is allowed.
pub proof fn empty_allow_list_allows_the_rest(disabled: Seq<Seq<char>>, name: Seq<char>)
    ensures
        tool_allowed(Seq::empty(), disabled, name) <==> !any_match(disabled, name),
{
}

/// Matching does not depend on the case of a name: replacing each character by
/// one with the same mappings leaves the answer as it is.
pub proof fn matching_ignores_case(pattern: Seq<char>, name: Seq<char>, other: Seq<char>)
    requires
        name.len() == other.len(),
        forall|i: int|
            0 <= i < name.len() ==> text::lowercase_of(#[trigger] name[i]) == text::lowercase_of(
                other[i],
            ) && text::uppercase_of(name[i]) == text::uppercase_of(other[i]),
    ensures
        glob_match(pattern, name) ==> glob_match(pattern, other),
    decreases pattern.len(),
{
    if pattern.len() > 0 && glob_match(pattern, name) {
        let rest = pattern.skip(1);
        if pattern[0] == '*' {
            let k = choose|k: int|
                0 <= k <= name.len() && glob_match(rest, #[trigger] name.skip(k));
            assert forall|i: int| 0 <= i < name.skip(k).len() implies text::lowercase_of(
                #[trigger] name.skip(k)[i],
            ) == text::lowercase_of(other.skip(k)[i]) && text::uppercase_of(name.skip(k)[i])
                == text::uppercase_of(other.skip(k)[i]) by {
                assert(name.skip(k)[i] == name[i + k]);
            }
            matching_ignores_case(rest, name.skip(k), other.skip(k));
            assert(glob_match(rest, other.skip(k)));
        } else {
            assert forall|i: int| 0 <= i < name.skip(1).len() implies text::lowercase_of(
                #[trigger] name.skip(1)[i],
            ) == text::lowercase_of(other.skip(1)[i]) && text::uppercase_of(name.skip(1)[i])
                == text::uppercase_of(other.skip(1)[i]) by {
                assert(name.skip(1)[i] == name[i + 1]);
            }
            matching_ignores_case(rest, name.skip(1), other.skip(1));
            assert(text::lowercase_of(name[0]) == text::lowercase_of(other[0]));
        }
    }
}

/// What the compiled policy answers, in terms of the configuration: a tool is
/// refused if a disabled pattern matches its name; it is refused if there are
/// allowed patterns and none of them matches, whatever is disabled; and it is
/// allowed in every other case.
pub proof fn decisions_follow_the_lists(
    config: &ToolFilterConfig,
    filter: ToolFilter,
    name: &str,
    decision: bool,
)
    requires
        call_ensures(ToolFilter::new, (config,), filter),
        call_ensures(ToolFilter::is_allowed, (&filter, name), decision),
    ensures
        (exists|i: int|
            0 <= i < config.disabled_tools@.len() && glob_match(
                (#[trigger] config.disabled_tools@[i])@,
                name@,
            )) ==> !decision,
        config.allowed_tools@.len() > 0 && (forall|i: int|
            0 <= i < config.allowed_tools@.len() ==> !glob_match(
                (#[trigger] config.allowed_tools@[i])@,
                name@,
            )) ==> !decision,
        (forall|i: int|
            0 <= i < config.disabled_tools@.len() ==> !glob_match(
                (#[trigger] config.disabled_tools@[i])@,
                name@,
            )) && (config.allowed_tools@.len() == 0 || exists|i: int|
            0 <= i < config.allowed_tools@.len() && glob_match(
                (#[trigger] config.allowed_tools@[i])@,
                name@,
            )) ==> decision,
{
    let allowed = text::texts(config.allowed_tools@);
    let disabled = text::texts(config.disabled_tools@);
    assert(filter.allows(name@) <==> tool_allowed(allowed, disabled, name@));
    assert forall|i: int| 0 <= i < allowed.len() implies #[trigger] allowed[i]
        == config.allowed_tools@[i]@ by {}
    assert forall|i: int| 0 <= i < disabled.len() implies #[trigger] disabled[i]
        == config.disabled_tools@[i]@ by {}
    if exists|i: int|
        0 <= i < config.disabled_tools@.len() && glob_match(
            (#[trigger] config.disabled_tools@[i])@,
            name@,
        ) {
        let i = choose|i: int|
            0 <= i < config.disabled_tools@.len() && glob_match(
                (#[trigger] config.disabled_tools@[i])@,
                name@,
            );
        assert(glob_match(disabled[i], name@));
    }
    if exists|i: int|
        0 <= i < config.allowed_tools@.len() && glob_match(
            (#[trigger] config.allowed_tools@[i])@,
            name@,
        ) {
        let i = choose|i: int|
            0 <= i < config.allowed_tools@.len() && glob_match(
                (#[trigger] config.allowed_tools@[i])@,
                name@,
            );
        assert(glob_match(allowed[i], name@));
    }
}

/// Without stars, a pattern is compared character by character: `?` takes any
/// character, and every other one takes itself in either case.
pub proof fn starless_patterns_match_character_by_character(pattern: Seq<char>, name: Seq<char>)
    requires
        forall|i: int| 0 <= i < pattern.len() ==> #[trigger] pattern[i] != '*',
    ensures
        glob_match(pattern, name) <==> name.len() == pattern.len() && forall|i: int|
            0 <= i < pattern.len() ==> #[trigger] pattern[i] == '?' || pattern[i] == name[i]
                || text::lowercase_of(pattern[i]) == text::lowercase_of(name[i])
                || text::uppercase_of(pattern[i]) == text::uppercase_of(name[i]),
    decreases pattern.len(),
{
    if pattern.len() > 0 && name.len() > 0 {
        let rest = pattern.skip(1);
        assert(pattern[0] != '*');
        assert forall|i: int| 0 <= i < rest.len() implies #[trigger] rest[i] != '*' by {
            assert(rest[i] == pattern[i + 1]);
        }
        starless_patterns_match_character_by_character(rest, name.skip(1));
        if glob_match(pattern, name) {
            assert forall|i: int| 0 <= i < pattern.len() implies #[trigger] pattern[i] == '?'
                || pattern[i] == name[i] || text::lowercase_of(pattern[i]) == text::lowercase_of(
                name[i],
            ) || text::uppercase_of(pattern[i]) == text::uppercase_of(name[i]) by {
                if i > 0 {
                    assert(rest[i - 1] == pattern[i]);
                    assert(name.skip(1)[i - 1] == name[i]);
                }
            }
        }
        if name.len() == pattern.len() && forall|i: int|
            0 <= i < pattern.len() ==> #[trigger] pattern[i] == '?' || pattern[i] == name[i]
                || text::lowercase_of(pattern[i]) == text::lowercase_of(name[i])
                || text::uppercase_of(pattern[i]) == text::uppercase_of(name[i]) {
            assert forall|i: int| 0 <= i < rest.len() implies #[trigger] rest[i] == '?' || rest[i]
                == name.skip(1)[i] || text::lowercase_of(rest[i]) == text::lowercase_of(
                name.skip(1)[i],
            ) || text::uppercase_of(rest[i]) == text::uppercase_of(name.skip(1)[i]) by {
                assert(rest[i] == pattern[i + 1]);
            }
            assert(pattern[0] == '?' || text::same_letter(pattern[0], name[0]));
        }
    }
}

/// A pattern of two parts matches exactly the names that fall into two parts of
/// which each is matched by its own part.
pub proof fn patterns_match_part_by_part(first: Seq<char>, second: Seq<char>, name: Seq<char>)
    ensures
        glob_match(first + second, name) <==> exists|k: int|
            0 <= k <= name.len() && glob_match(first, #[trigger] name.take(k)) && glob_match(
                second,
                name.skip(k),
            ),
    decreases first.len(),
{
    let both = first + second;
    if first.len() == 0 {
        assert(both =~= second);
        assert(name.skip(0) =~= name);
        if glob_match(both, name) {
            assert(glob_match(first, name.take(0)));
        }
        assert forall|k: int|
            0 <= k <= name.len() && glob_match(first, #[trigger] name.take(k)) implies k == 0 by {}
    } else {
        let rest = first.skip(1);
        assert(both.skip(1) =~= rest + second);
        assert(both[0] == first[0]);
        if first[0] == '*' {
            if glob_match(both, name) {
                let j = choose|j: int|
                    0 <= j <= name.len() && glob_match(both.skip(1), #[trigger] name.skip(j));
                patterns_match_part_by_part(rest, second, name.skip(j));
                let k = choose|k: int|
                    0 <= k <= name.skip(j).len() && glob_match(rest, #[trigger] name.skip(j).take(k))
                        && glob_match(second, name.skip(j).skip(k));
                assert(name.skip(j).skip(k) =~= name.skip(j + k));
                assert(name.take(j + k).skip(j) =~= name.skip(j).take(k));
                assert(glob_match(first, name.take(j + k)));
            }
            if exists|k: int|
                0 <= k <= name.len() && glob_match(first, #[trigger] name.take(k)) && glob_match(
                    second,
                    name.skip(k),
                ) {
                let k = choose|k: int|
                    0 <= k <= name.len() && glob_match(first, #[trigger] name.take(k))
                        && glob_match(second, name.skip(k));
                let j = choose|j: int|
                    0 <= j <= name.take(k).len() && glob_match(rest, #[trigger] name.take(k).skip(j));
                patterns_match_part_by_part(rest, second, name.skip(j));
                assert(name.take(k).skip(j) =~= name.skip(j).take(k - j));
                assert(name.skip(j).skip(k - j) =~= name.skip(k));
                assert(glob_match(rest, name.skip(j).take(k - j)));
                assert(glob_match(both.skip(1), name.skip(j)));
            }
        } else if name.len() > 0 {
            patterns_match_part_by_part(rest, second, name.skip(1));
            if glob_match(both, name) {
                let k = choose|k: int|
                    0 <= k <= name.skip(1).len() && glob_match(rest, #[trigger] name.skip(1).take(k))
                        && glob_match(second, name.skip(1).skip(k));
                assert(name.skip(1).skip(k) =~= name.skip(k + 1));
                assert(name.take(k + 1).skip(1) =~= name.skip(1).take(k));
                assert(glob_match(first, name.take(k + 1)));
            }
            if exists|k: int|
                0 <= k <= name.len() && glob_match(first, #[trigger] name.take(k)) && glob_match(
                    second,
                    name.skip(k),
                ) {
                let k = choose|k: int|
                    0 <= k <= name.len() && glob_match(first, #[trigger] name.take(k))
                        && glob_match(second, name.skip(k));
                assert(name.take(k).len() > 0);
                assert(name.take(k).skip(1) =~= name.skip(1).take(k - 1));
                assert(name.skip(1).skip(k - 1) =~= name.skip(k));
                assert(glob_match(rest, name.skip(1).take(k - 1)));
            }
        } else {
            assert forall|k: int| 0 <= k <= name.len() implies !glob_match(
                first,
                #[trigger] name.take(k),
            ) by {}
        }
    }
}

/// A compiled pattern answers as the pattern says.
pub proof fn compiled_patterns_match_their_source(
    pattern: &str,
    compiled: ToolPattern,
    name: &str,
    found: bool,
)
    requires
        call_ensures(ToolPattern::new, (pattern,), compiled),
        call_ensures(ToolPattern::is_match, (&compiled, name), found),
    ensures
        found <==> glob_match(pattern@, name@),
{
}

/// Filtering keeps exactly the tools that may be seen, each as often as it was
/// there and in the order in which they came.
pub proof fn filters_keep_exactly_the_allowed_tools(
    config: &ToolFilterConfig,
    filter: ToolFilter,
    tools: Vec<ToolInfo>,
    kept: Vec<ToolInfo>,
)
    requires
        call_ensures(ToolFilter::new, (config,), filter),
        call_ensures(ToolFilter::filter::<ToolInfo>, (&filter, tools), kept),
    ensures
        kept@ == tools@.filter(
            |tool: ToolInfo|
                tool_allowed(
                    text::texts(config.allowed_tools@),
                    text::texts(config.disabled_tools@),
                    tool.name@,
                ),
        ),
{
    let allowed = text::texts(config.allowed_tools@);
    let disabled = text::texts(config.disabled_tools@);
    let own = |tool: ToolInfo| filter.allows(tool.full_name());
    let stated = |tool: ToolInfo| tool_allowed(allowed, disabled, tool.name@);
    lemma_same_filter(tools@, own, stated);
}

proof fn lemma_same_filter(
    tools: Seq<ToolInfo>,
    left: spec_fn(ToolInfo) -> bool,
    right: spec_fn(ToolInfo) -> bool,
)
    requires
        forall|tool: ToolInfo| #[trigger] left(tool) == right(tool),
    ensures
        tools.filter(left) == tools.filter(right),
    decreases tools.len(),
{
    reveal(Seq::filter);
    if tools.len() > 0 {
        lemma_same_filter(tools.drop_last(), left, right);
        assert(left(tools.last()) == right(tools.last()));
    }
}

/// Patterns of the same form accept the same names, and one text always gives the
/// same form.
pub proof fn patterns_of_one_form_accept_alike(
    source: &str,
    left: ToolPattern,
    right: ToolPattern,
    name: Seq<char>,
)
    ensures
        left.same_form(&right) ==> (left.accepts(name) <==> right.accepts(name)),
        call_ensures(ToolPattern::new, (source,), left) && call_ensures(
            ToolPattern::new,
            (source,),
            right,
        ) ==> left.same_form(&right),
{
}

} // verus!
