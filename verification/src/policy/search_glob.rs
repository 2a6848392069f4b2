//! Search glob matching policy.

use vstd::prelude::*;

use crate::error::CliError;
use crate::text;
use crate::text::{chars_of, scalar_eq_ignore_case};

verus! {

/// The number of stars that a pattern starts with.
pub open spec fn star_run(pattern: Seq<char>) -> nat
    decreases pattern.len(),
{
    if pattern.len() > 0 && pattern[0] == '*' {
        1 + star_run(pattern.skip(1))
    } else {
        0
    }
}

/// No character of the name is a slash.
pub open spec fn one_segment(name: Seq<char>) -> bool {
    forall|i: int| 0 <= i < name.len() ==> #[trigger] name[i] != '/'
}

/// Whether a search glob matches a complete tool name.
///
/// One star consumes any run without a slash, a run of two or more stars
/// consumes any run, `?` consumes one scalar value other than a slash, and every
/// other character consumes one scalar value that is the same letter.
pub open spec fn search_match(pattern: Seq<char>, name: Seq<char>) -> bool
    decreases pattern.len(),
    via search_match_decreases
{
    if pattern.len() == 0 {
        name.len() == 0
    } else if star_run(pattern) == 1 {
        exists|k: int|
            0 <= k <= name.len() && one_segment(name.take(k)) && search_match(
                pattern.skip(1),
                #[trigger] name.skip(k),
            )
    } else if star_run(pattern) > 1 {
        exists|k: int|
            0 <= k <= name.len() && search_match(
                pattern.skip(star_run(pattern) as int),
                #[trigger] name.skip(k),
            )
    } else {
        &&& name.len() > 0
        &&& if pattern[0] == '?' {
            name[0] != '/'
        } else {
            text::same_letter(pattern[0], name[0])
        }
        &&& search_match(pattern.skip(1), name.skip(1))
    }
}

#[via_fn]
proof fn search_match_decreases(pattern: Seq<char>, name: Seq<char>) {
    lemma_star_run(pattern);
}

#[derive(Clone, Copy, Debug, PartialEq, Eq, Structural)]
enum SearchToken {
    SegmentSequence,
    Globstar,
    AnyScalar,
    Literal(char),
}

/// A compiled, case-insensitive glob matched against a complete tool name.
///
/// A single `*` consumes zero or more Unicode scalar values other than `/`.
/// A run of two or more `*` characters is normalized to one globstar, which
/// may also consume `/`. `?` consumes exactly one non-`/` Unicode scalar, and
/// every other character is matched literally.
#[derive(Clone, Debug)]
pub struct SearchMatcher {
    tokens: Vec<SearchToken>,
}

/// The part of a name that one token consumes.
spec fn token_takes(token: SearchToken, part: Seq<char>) -> bool {
    match token {
        SearchToken::SegmentSequence => one_segment(part),
        SearchToken::Globstar => true,
        SearchToken::AnyScalar => part.len() == 1 && part[0] != '/',
        SearchToken::Literal(expected) => part.len() == 1 && text::same_letter(expected, part[0]),
    }
}

/// The name falls into parts that the tokens take one after the other.
spec fn tokens_match(tokens: Seq<SearchToken>, name: Seq<char>) -> bool
    decreases tokens.len(),
{
    if tokens.len() == 0 {
        name.len() == 0
    } else {
        exists|k: int|
            0 <= k <= name.len() && token_takes(tokens.last(), name.skip(k)) && tokens_match(
                tokens.drop_last(),
                #[trigger] name.take(k),
            )
    }
}

/// The tokens of a pattern.
spec fn tokens_of(pattern: Seq<char>) -> Seq<SearchToken>
    decreases pattern.len(),
    via tokens_of_decreases
{
    if pattern.len() == 0 {
        Seq::empty()
    } else if star_run(pattern) == 1 {
        seq![SearchToken::SegmentSequence] + tokens_of(pattern.skip(1))
    } else if star_run(pattern) > 1 {
        seq![SearchToken::Globstar] + tokens_of(pattern.skip(star_run(pattern) as int))
    } else {
        seq![scalar_token(pattern[0])] + tokens_of(pattern.skip(1))
    }
}

/// The token of a character that is no star.
spec fn scalar_token(c: char) -> SearchToken {
    if c == '?' {
        SearchToken::AnyScalar
    } else {
        SearchToken::Literal(c)
    }
}

#[via_fn]
proof fn tokens_of_decreases(pattern: Seq<char>) {
    lemma_star_run(pattern);
}

/// Matching can start with the first token as well as with the last one.
proof fn lemma_first_token(tokens: Seq<SearchToken>, name: Seq<char>)
    requires
        tokens.len() > 0,
    ensures
        tokens_match(tokens, name) <==> exists|k: int|
            0 <= k <= name.len() && token_takes(tokens[0], name.take(k)) && tokens_match(
                tokens.skip(1),
                #[trigger] name.skip(k),
            ),
    decreases tokens.len(),
{
    let rest = tokens.skip(1);
    if tokens.len() == 1 {
        assert(tokens.drop_last() =~= Seq::<SearchToken>::empty());
        assert(rest =~= Seq::<SearchToken>::empty());
        if tokens_match(tokens, name) {
            let k = choose|k: int|
                0 <= k <= name.len() && token_takes(tokens.last(), name.skip(k)) && tokens_match(
                    tokens.drop_last(),
                    #[trigger] name.take(k),
                );
            assert(k == 0);
            assert(name.skip(0) =~= name);
            assert(name.take(name.len() as int) =~= name);
            assert(tokens_match(rest, name.skip(name.len() as int)));
        }
        if exists|k: int|
            0 <= k <= name.len() && token_takes(tokens[0], name.take(k)) && tokens_match(
                rest,
                #[trigger] name.skip(k),
            ) {
            let k = choose|k: int|
                0 <= k <= name.len() && token_takes(tokens[0], name.take(k)) && tokens_match(
                    rest,
                    #[trigger] name.skip(k),
                );
            assert(k == name.len());
            assert(name.skip(0) =~= name);
            assert(name.take(k) =~= name);
            assert(tokens_match(tokens.drop_last(), name.take(0)));
        }
    } else {
        let head = tokens.drop_last();
        assert(head.skip(1) =~= rest.drop_last());
        assert(head[0] == tokens[0]);
        assert(rest.last() == tokens.last());
        if tokens_match(tokens, name) {
            let k = choose|k: int|
                0 <= k <= name.len() && token_takes(tokens.last(), name.skip(k)) && tokens_match(
                    head,
                    #[trigger] name.take(k),
                );
            lemma_first_token(head, name.take(k));
            let j = choose|j: int|
                0 <= j <= name.take(k).len() && token_takes(head[0], name.take(k).take(j))
                    && tokens_match(head.skip(1), #[trigger] name.take(k).skip(j));
            assert(name.take(k).take(j) =~= name.take(j));
            assert(name.take(k).skip(j) =~= name.skip(j).take(k - j));
            assert(name.skip(j).skip(k - j) =~= name.skip(k));
            assert(tokens_match(rest.drop_last(), name.skip(j).take(k - j)));
            assert(tokens_match(rest, name.skip(j)));
        }
        if exists|j: int|
            0 <= j <= name.len() && token_takes(tokens[0], name.take(j)) && tokens_match(
                rest,
                #[trigger] name.skip(j),
            ) {
            let j = choose|j: int|
                0 <= j <= name.len() && token_takes(tokens[0], name.take(j)) && tokens_match(
                    rest,
                    #[trigger] name.skip(j),
                );
            let m = choose|m: int|
                0 <= m <= name.skip(j).len() && token_takes(rest.last(), name.skip(j).skip(m))
                    && tokens_match(rest.drop_last(), #[trigger] name.skip(j).take(m));
            let k = j + m;
            assert(name.take(k).take(j) =~= name.take(j));
            assert(name.take(k).skip(j) =~= name.skip(j).take(m));
            assert(name.skip(j).skip(m) =~= name.skip(k));
            lemma_first_token(head, name.take(k));
            assert(tokens_match(head.skip(1), name.take(k).skip(j)));
            assert(tokens_match(head, name.take(k)));
        }
    }
}

/// Compilation keeps the meaning of the pattern.
proof fn lemma_tokens_of(pattern: Seq<char>, name: Seq<char>)
    ensures
        tokens_match(tokens_of(pattern), name) <==> search_match(pattern, name),
    decreases pattern.len(),
{
    let tokens = tokens_of(pattern);
    if pattern.len() > 0 {
        let run = star_run(pattern);
        let used: int = if run > 1 {
            run as int
        } else {
            1
        };
        lemma_star_run(pattern);
        let rest = pattern.skip(used);
        assert(tokens.skip(1) =~= tokens_of(rest));
        lemma_first_token(tokens, name);
        assert forall|k: int| 0 <= k <= name.len() implies (tokens_match(
            tokens.skip(1),
            #[trigger] name.skip(k),
        ) <==> search_match(rest, name.skip(k))) by {
            lemma_tokens_of(rest, name.skip(k));
        }
        if tokens_match(tokens, name) {
            let k = choose|k: int|
                0 <= k <= name.len() && token_takes(tokens[0], name.take(k)) && tokens_match(
                    tokens.skip(1),
                    #[trigger] name.skip(k),
                );
            assert(search_match(rest, name.skip(k)));
            if run == 0 {
                assert(name.take(k)[0] == name[0]);
            }
        }
        if search_match(pattern, name) {
            if run == 1 {
                let k = choose|k: int|
                    0 <= k <= name.len() && one_segment(name.take(k)) && search_match(
                        pattern.skip(1),
                        #[trigger] name.skip(k),
                    );
                assert(tokens_match(tokens.skip(1), name.skip(k)));
            } else if run > 1 {
                let k = choose|k: int|
                    0 <= k <= name.len() && search_match(
                        pattern.skip(run as int),
                        #[trigger] name.skip(k),
                    );
                assert(tokens_match(tokens.skip(1), name.skip(k)));
            } else {
                assert(name.take(1)[0] == name[0]);
                assert(tokens_match(tokens.skip(1), name.skip(1)));
            }
        }
    }
}

/// A star run lies within its pattern and ends where the stars end.
pub proof fn lemma_star_run(pattern: Seq<char>)
    ensures
        star_run(pattern) <= pattern.len(),
        forall|i: int| 0 <= i < star_run(pattern) ==> pattern[i] == '*',
        star_run(pattern) < pattern.len() ==> pattern[star_run(pattern) as int] != '*',
    decreases pattern.len(),
{
    if pattern.len() > 0 && pattern[0] == '*' {
        let rest = pattern.skip(1);
        lemma_star_run(rest);
        assert forall|i: int| 0 <= i < star_run(pattern) implies pattern[i] == '*' by {
            if i > 0 {
                assert(rest[i - 1] == pattern[i]);
            }
        }
    }
}

proof fn lemma_star_run_is(pattern: Seq<char>, run: nat)
    requires
        run <= pattern.len(),
        forall|i: int| 0 <= i < run ==> pattern[i] == '*',
        run < pattern.len() ==> pattern[run as int] != '*',
    ensures
        star_run(pattern) == run,
    decreases pattern.len(),
{
    if run > 0 {
        let rest = pattern.skip(1);
        assert forall|i: int| 0 <= i < run - 1 implies rest[i] == '*' by {
            assert(rest[i] == pattern[i + 1]);
        }
        lemma_star_run_is(rest, (run - 1) as nat);
    }
}

impl SearchMatcher {
    /// Whether the pattern accepts the complete name.
    pub closed spec fn accepts(&self, name: Seq<char>) -> bool {
        tokens_match(self.tokens@, name)
    }

    /// Both matchers have the same compiled form.
    pub closed spec fn same_form(&self, other: &Self) -> bool {
        self.tokens@ == other.tokens@
    }

    /// The matcher is the compiled form of the pattern.
    pub closed spec fn compiled_from(&self, pattern: Seq<char>) -> bool {
        self.tokens@ == tokens_of(pattern)
    }

    /// Compiles a search glob into an anchored matcher.
    ///
    /// Compilation is currently infallible because every non-glob character
    /// is treated literally. The `Result` is retained as the stable public API
    /// for callers that precompile patterns before starting search work.
    pub fn compile(pattern: &str) -> (r: Result<Self, CliError>)
        ensures
            r is Ok,
            r matches Ok(matcher) ==> matcher.compiled_from(pattern@),
            r matches Ok(matcher) ==> forall|name: Seq<char>| #[trigger]
                matcher.accepts(name) <==> search_match(pattern@, name),
    {
        let characters = chars_of(pattern);
        let mut tokens: Vec<SearchToken> = Vec::with_capacity(characters.len());
        let mut index: usize = 0;
        assert(pattern@.skip(0) =~= pattern@);
        assert(tokens@ + tokens_of(pattern@) =~= tokens_of(pattern@));
        while index < characters.len()
            invariant
                characters@ == pattern@,
                index <= characters.len(),
                tokens@ + tokens_of(pattern@.skip(index as int)) == tokens_of(pattern@),
            decreases characters.len() - index,
        {
            let ghost here = pattern@.skip(index as int);
            let ghost before = tokens@;
            let ghost start = index as int;
            let mut star_count: usize = 0;
            while index < characters.len() && characters[index] == '*'
                invariant
                    characters@ == pattern@,
                    0 <= start <= index <= characters.len(),
                    star_count == index - start,
                    here == pattern@.skip(start),
                    forall|i: int| 0 <= i < star_count ==> here[i] == '*',
                decreases characters.len() - index,
            {
                assert(here[star_count as int] == characters@[index as int]);
                star_count += 1;
                index += 1;
            }
            proof {
                if index < characters.len() {
                    assert(here[star_count as int] == characters@[index as int]);
                }
                lemma_star_run_is(here, star_count as nat);
            }
            let token = if star_count == 0 {
                let character = characters[index];
                index += 1;
                match character {
                    '?' => SearchToken::AnyScalar,
                    literal => SearchToken::Literal(literal),
                }
            } else if star_count == 1 {
                SearchToken::SegmentSequence
            } else {
                SearchToken::Globstar
            };
            tokens.push(token);
            proof {
                let rest = pattern@.skip(index as int);
                assert(here.skip(index - start) =~= rest);
                assert(tokens_of(here) =~= seq![token] + tokens_of(rest));
                assert(tokens@ + tokens_of(rest) =~= before + (seq![token] + tokens_of(rest)));
            }
        }
        assert(pattern@.skip(index as int).len() == 0);
        assert(tokens@ + tokens_of(pattern@.skip(index as int)) =~= tokens@);
        let matcher = SearchMatcher { tokens };
        proof {
            assert forall|name: Seq<char>| #[trigger] matcher.accepts(name) <==> search_match(
                pattern@,
                name,
            ) by {
                lemma_tokens_of(pattern@, name);
            }
        }
        Ok(matcher)
    }

    /// Returns whether this pattern matches the complete tool name.
    pub fn is_match(&self, tool_name: &str) -> (r: bool)
        ensures
            r == self.accepts(tool_name@),
    {
        let name = chars_of(tool_name);
        let ghost n = name@;
        let mut previous: Vec<bool> = Vec::new();
        previous.push(true);
        let mut filled: usize = 0;
        assert(n.take(0).len() == 0);
        while filled < name.len()
            invariant
                n == name@,
                filled <= name.len(),
                previous.len() == filled + 1,
                forall|j: int|
                    0 <= j <= filled ==> #[trigger] previous@[j] == tokens_match(
                        self.tokens@.take(0),
                        n.take(j),
                    ),
            decreases name.len() - filled,
        {
            previous.push(false);
            filled += 1;
        }
        let mut which: usize = 0;
        while which < self.tokens.len()
            invariant
                n == name@,
                which <= self.tokens.len(),
                previous.len() == name.len() + 1,
                forall|j: int|
                    0 <= j <= name.len() ==> #[trigger] previous@[j] == tokens_match(
                        self.tokens@.take(which as int),
                        n.take(j),
                    ),
            decreases self.tokens.len() - which,
        {
            let token = self.tokens[which];
            let ghost done = self.tokens@.take(which as int);
            let ghost next = self.tokens@.take(which + 1);
            assert(next.drop_last() =~= done);
            assert(next.last() == token);
            let mut current: Vec<bool> = Vec::new();
            let first = match token {
                SearchToken::SegmentSequence => previous[0],
                SearchToken::Globstar => previous[0],
                SearchToken::AnyScalar => false,
                SearchToken::Literal(_) => false,
            };
            proof {
                lemma_prefix_start(done, token, n);
                assert(done.push(token) =~= next);
                assert(previous@[0] == tokens_match(done, n.take(0)));
            }
            current.push(first);
            let mut index: usize = 1;
            while index <= name.len()
                invariant
                    n == name@,
                    1 <= index <= name.len() + 1,
                    name.len() < usize::MAX,
                    which < self.tokens.len(),
                    done == self.tokens@.take(which as int),
                    next == done.push(token),
                    previous.len() == name.len() + 1,
                    current.len() == index,
                    forall|j: int|
                        0 <= j <= name.len() ==> #[trigger] previous@[j] == tokens_match(
                            done,
                            n.take(j),
                        ),
                    forall|j: int|
                        0 <= j < index ==> #[trigger] current@[j] == tokens_match(next, n.take(j)),
                decreases name.len() + 1 - index,
            {
                proof {
                    lemma_prefix_step(done, token, n, index as int);
                    assert(previous@[index - 1] == tokens_match(done, n.take(index - 1)));
                    assert(previous@[index as int] == tokens_match(done, n.take(index as int)));
                    assert(current@[index - 1] == tokens_match(next, n.take(index - 1)));
                }
                let value = match token {
                    SearchToken::SegmentSequence => previous[index] || (current[index - 1]
                        && name[index - 1] != '/'),
                    SearchToken::Globstar => previous[index] || current[index - 1],
                    SearchToken::AnyScalar => previous[index - 1] && name[index - 1] != '/',
                    SearchToken::Literal(expected) => previous[index - 1] && scalar_eq_ignore_case(
                        expected,
                        name[index - 1],
                    ),
                };
                current.push(value);
                index += 1;
            }
            previous = current;
            which += 1;
        }
        assert(self.tokens@.take(which as int) =~= self.tokens@);
        assert(n.take(n.len() as int) =~= n);
        previous[name.len()]
    }
}

impl PartialEq for SearchMatcher {
    fn eq(&self, other: &Self) -> (r: bool) {
        if self.tokens.len() != other.tokens.len() {
            return false;
        }
        let mut index: usize = 0;
        while index < self.tokens.len()
            invariant
                self.tokens.len() == other.tokens.len(),
                index <= self.tokens.len(),
                forall|i: int| 0 <= i < index ==> self.tokens@[i] == other.tokens@[i],
            decreases self.tokens.len() - index,
        {
            if self.tokens[index] != other.tokens[index] {
                assert(self.tokens@[index as int] != other.tokens@[index as int]);
                return false;
            }
            index += 1;
        }
        assert(self.tokens@ =~= other.tokens@);
        true
    }
}

impl vstd::std_specs::cmp::PartialEqSpecImpl for SearchMatcher {
    open spec fn obeys_eq_spec() -> bool {
        true
    }

    open spec fn eq_spec(&self, other: &Self) -> bool {
        self.same_form(other)
    }
}

impl Eq for SearchMatcher {

}

/// One more token on the empty prefix of a name.
proof fn lemma_prefix_start(done: Seq<SearchToken>, token: SearchToken, name: Seq<char>)
    ensures
        tokens_match(done.push(token), name.take(0)) == (match token {
            SearchToken::SegmentSequence | SearchToken::Globstar => tokens_match(
                done,
                name.take(0),
            ),
            _ => false,
        }),
{
    let next = done.push(token);
    let empty = name.take(0);
    assert(next.drop_last() =~= done);
    assert(empty.take(0) =~= empty);
    assert(empty.skip(0) =~= empty);
    if tokens_match(next, empty) {
        let k = choose|k: int|
            0 <= k <= empty.len() && token_takes(token, empty.skip(k)) && tokens_match(
                done,
                #[trigger] empty.take(k),
            );
        assert(k == 0);
    }
    if tokens_match(done, empty) && token_takes(token, empty) {
        assert(tokens_match(done, empty.take(0)));
    }
}

/// One more token on a prefix of a name that is one character longer.
proof fn lemma_prefix_step(done: Seq<SearchToken>, token: SearchToken, name: Seq<char>, index: int)
    requires
        1 <= index <= name.len(),
    ensures
        ({
            let next = done.push(token);
            let last = name[index - 1];
            tokens_match(next, name.take(index)) == (match token {
                SearchToken::SegmentSequence => tokens_match(done, name.take(index)) || (
                tokens_match(next, name.take(index - 1)) && last != '/'),
                SearchToken::Globstar => tokens_match(done, name.take(index)) || tokens_match(
                    next,
                    name.take(index - 1),
                ),
                SearchToken::AnyScalar => tokens_match(done, name.take(index - 1)) && last != '/',
                SearchToken::Literal(expected) => tokens_match(done, name.take(index - 1))
                    && text::same_letter(expected, last),
            })
        }),
{
    let next = done.push(token);
    let long = name.take(index);
    let short = name.take(index - 1);
    let last = name[index - 1];
    assert(next.drop_last() =~= done);
    assert(long.take(index) =~= long);
    assert(long.take(index - 1) =~= short);
    assert(long.skip(index).len() == 0);
    assert(long.skip(index - 1) =~= seq![last]);
    if tokens_match(next, long) {
        let k = choose|k: int|
            0 <= k <= long.len() && token_takes(token, long.skip(k)) && tokens_match(
                done,
                #[trigger] long.take(k),
            );
        if k < index {
            assert(long.skip(k).last() == last);
            assert(short.take(k) =~= long.take(k));
            assert(short.skip(k) =~= long.skip(k).drop_last());
            assert(long.skip(k)[long.skip(k).len() - 1] == last);
            match token {
                SearchToken::SegmentSequence => {
                    assert forall|i: int| 0 <= i < short.skip(k).len() implies #[trigger] short.skip(
                        k,
                    )[i] != '/' by {
                        assert(short.skip(k)[i] == long.skip(k)[i]);
                    }
                    assert(tokens_match(next, short));
                },
                SearchToken::Globstar => {
                    assert(tokens_match(next, short));
                },
                _ => {
                    assert(k == index - 1);
                },
            }
        }
    }
    match token {
        SearchToken::SegmentSequence | SearchToken::Globstar => {
            if tokens_match(done, long) {
                assert(token_takes(token, long.skip(index)));
                assert(tokens_match(done, long.take(index)));
                assert(tokens_match(next, long));
            }
            if tokens_match(next, short) && (token == SearchToken::Globstar || last != '/') {
                let k = choose|k: int|
                    0 <= k <= short.len() && token_takes(token, short.skip(k)) && tokens_match(
                        done,
                        #[trigger] short.take(k),
                    );
                assert(short.take(k) =~= long.take(k));
                assert(long.skip(k) =~= short.skip(k).push(last));
                assert(tokens_match(done, long.take(k)));
                assert(token_takes(token, long.skip(k)));
                assert(tokens_match(next, long));
            }
        },
        _ => {
            if tokens_match(done, short) && token_takes(token, seq![last]) {
                assert(tokens_match(done, long.take(index - 1)));
                assert(tokens_match(next, long));
            }
        },
    }
}


/// A lone star matches exactly the names without a slash.
pub proof fn star_matches_one_segment(name: Seq<char>)
    ensures
        search_match(seq!['*'], name) <==> one_segment(name),
{
    let star = seq!['*'];
    lemma_star_run_is(star, 1);
    assert(star.skip(1).len() == 0);
    if search_match(star, name) {
        let k = choose|k: int|
            0 <= k <= name.len() && one_segment(name.take(k)) && search_match(
                star.skip(1),
                #[trigger] name.skip(k),
            );
        assert(k == name.len());
        assert(name.take(k) =~= name);
    }
    if one_segment(name) {
        assert(name.take(name.len() as int) =~= name);
        assert(search_match(star.skip(1), name.skip(name.len() as int)));
    }
}

/// A run of two or more stars matches every name.
pub proof fn globstar_matches_every_name(pattern: Seq<char>, name: Seq<char>)
    requires
        pattern.len() >= 2,
        forall|i: int| 0 <= i < pattern.len() ==> pattern[i] == '*',
    ensures
        search_match(pattern, name),
{
    lemma_star_run_is(pattern, pattern.len());
    assert(pattern.skip(pattern.len() as int).len() == 0);
    assert(search_match(pattern.skip(pattern.len() as int), name.skip(name.len() as int)));
}

/// The pattern with every run of two or more stars shortened to two.
pub open spec fn normalized(pattern: Seq<char>) -> Seq<char>
    decreases pattern.len(),
    via normalized_decreases
{
    if pattern.len() == 0 {
        Seq::empty()
    } else if star_run(pattern) > 1 {
        seq!['*', '*'] + normalized(pattern.skip(star_run(pattern) as int))
    } else {
        seq![pattern[0]] + normalized(pattern.skip(1))
    }
}

#[via_fn]
proof fn normalized_decreases(pattern: Seq<char>) {
    lemma_star_run(pattern);
}

proof fn lemma_normalized_tokens(pattern: Seq<char>)
    ensures
        tokens_of(normalized(pattern)) == tokens_of(pattern),
        normalized(pattern).len() == 0 <==> pattern.len() == 0,
        pattern.len() > 0 ==> normalized(pattern)[0] == pattern[0],
    decreases pattern.len(),
{
    if pattern.len() > 0 {
        let run = star_run(pattern);
        lemma_star_run(pattern);
        let used: int = if run > 1 {
            run as int
        } else {
            1
        };
        let rest = pattern.skip(used);
        lemma_normalized_tokens(rest);
        let short = normalized(pattern);
        if rest.len() > 0 {
            assert(rest[0] == pattern[used]);
        }
        if run > 1 {
            assert(short.skip(2) =~= normalized(rest));
            lemma_star_run_is(short, 2);
        } else {
            assert(short.skip(1) =~= normalized(rest));
            lemma_star_run_is(short, run);
        }
    }
}

/// Runs of two or more stars are alike: with each of them shortened to two
/// stars, a pattern compiles to an equal matcher and matches the same names.
pub proof fn longer_star_runs_are_one_globstar(
    long: SearchMatcher,
    short: SearchMatcher,
    pattern: Seq<char>,
    name: Seq<char>,
)
    requires
        long.compiled_from(pattern),
        short.compiled_from(normalized(pattern)),
    ensures
        long.same_form(&short),
        long.accepts(name) <==> short.accepts(name),
        search_match(normalized(pattern), name) <==> search_match(pattern, name),
{
    lemma_normalized_tokens(pattern);
    lemma_tokens_of(pattern, name);
    lemma_tokens_of(normalized(pattern), name);
}

/// Matchers of the same form match the same names.
pub proof fn equal_matchers_match_alike(
    left: SearchMatcher,
    right: SearchMatcher,
    name: Seq<char>,
)
    requires
        left.same_form(&right),
    ensures
        left.accepts(name) <==> right.accepts(name),
{
}

/// A lone star and a longer run of stars compile to different matchers.
pub proof fn one_star_is_no_globstar(star: SearchMatcher, globstar: SearchMatcher, run: Seq<char>)
    requires
        run.len() >= 2,
        forall|i: int| 0 <= i < run.len() ==> run[i] == '*',
        star.compiled_from(seq!['*']),
        globstar.compiled_from(run),
    ensures
        !star.same_form(&globstar),
{
    lemma_star_run_is(seq!['*'], 1);
    lemma_star_run_is(run, run.len());
    assert(star.tokens@[0] == SearchToken::SegmentSequence);
    assert(globstar.tokens@[0] == SearchToken::Globstar);
}

/// A name is only matched as a whole: a pattern without stars matches nothing
/// that is longer or shorter than itself.
pub proof fn starless_patterns_are_anchored(pattern: Seq<char>, name: Seq<char>)
    requires
        forall|i: int| 0 <= i < pattern.len() ==> #[trigger] pattern[i] != '*',
    ensures
        search_match(pattern, name) ==> name.len() == pattern.len(),
    decreases pattern.len(),
{
    if pattern.len() > 0 && name.len() > 0 {
        assert(pattern[0] != '*');
        lemma_star_run_is(pattern, 0);
        assert forall|i: int| 0 <= i < pattern.skip(1).len() implies #[trigger] pattern.skip(1)[i]
            != '*' by {
            assert(pattern.skip(1)[i] == pattern[i + 1]);
        }
        starless_patterns_are_anchored(pattern.skip(1), name.skip(1));
    }
}

/// Matching does not depend on the case of a name: replacing each character by
/// one with the same mappings, and no slash by another character, leaves the
/// answer as it is.
pub proof fn matching_ignores_case(pattern: Seq<char>, name: Seq<char>, other: Seq<char>)
    requires
        name.len() == other.len(),
        forall|i: int|
            0 <= i < name.len() ==> text::lowercase_of(#[trigger] name[i]) == text::lowercase_of(
                other[i],
            ) && text::uppercase_of(name[i]) == text::uppercase_of(other[i]) && (name[i] == '/'
                <==> other[i] == '/'),
    ensures
        search_match(pattern, name) ==> search_match(pattern, other),
    decreases pattern.len(),
{
    if pattern.len() > 0 && search_match(pattern, name) {
        let run = star_run(pattern);
        lemma_star_run(pattern);
        let used: int = if run > 1 {
            run as int
        } else {
            1
        };
        let rest = pattern.skip(used);
        let k: int = if run == 0 {
            1
        } else if run == 1 {
            choose|k: int|
                0 <= k <= name.len() && one_segment(name.take(k)) && search_match(
                    pattern.skip(1),
                    #[trigger] name.skip(k),
                )
        } else {
            choose|k: int|
                0 <= k <= name.len() && search_match(
                    pattern.skip(run as int),
                    #[trigger] name.skip(k),
                )
        };
        assert forall|i: int| 0 <= i < name.skip(k).len() implies text::lowercase_of(
            #[trigger] name.skip(k)[i],
        ) == text::lowercase_of(other.skip(k)[i]) && text::uppercase_of(name.skip(k)[i])
            == text::uppercase_of(other.skip(k)[i]) && (name.skip(k)[i] == '/' <==> other.skip(
            k,
        )[i] == '/') by {
            assert(name.skip(k)[i] == name[i + k]);
        }
        matching_ignores_case(rest, name.skip(k), other.skip(k));
        assert(search_match(rest, other.skip(k)));
        if run == 0 {
            assert(text::lowercase_of(name[0]) == text::lowercase_of(other[0]));
        } else if run == 1 {
            assert forall|i: int| 0 <= i < other.take(k).len() implies #[trigger] other.take(k)[i]
                != '/' by {
                assert(name.take(k)[i] == name[i]);
            }
            assert(one_segment(other.take(k)));
        }
    }
}

/// Without stars, a pattern is compared character by character: `?` takes any
/// character but a slash, and every other one takes itself in either case.
pub proof fn starless_patterns_match_character_by_character(pattern: Seq<char>, name: Seq<char>)
    requires
        forall|i: int| 0 <= i < pattern.len() ==> #[trigger] pattern[i] != '*',
    ensures
        search_match(pattern, name) <==> name.len() == pattern.len() && forall|i: int|
            0 <= i < pattern.len() ==> if #[trigger] pattern[i] == '?' {
                name[i] != '/'
            } else {
                pattern[i] == name[i] || text::lowercase_of(pattern[i]) == text::lowercase_of(
                    name[i],
                ) || text::uppercase_of(pattern[i]) == text::uppercase_of(name[i])
            },
    decreases pattern.len(),
{
    if pattern.len() > 0 {
        assert(pattern[0] != '*');
        assert(star_run(pattern) == 0);
    }
    if pattern.len() > 0 && name.len() > 0 {
        let rest = pattern.skip(1);
        assert forall|i: int| 0 <= i < rest.len() implies #[trigger] rest[i] != '*' by {
            assert(rest[i] == pattern[i + 1]);
        }
        starless_patterns_match_character_by_character(rest, name.skip(1));
        assert forall|i: int| 0 <= i < rest.len() implies #[trigger] rest[i] == pattern[i + 1]
            && name.len() == pattern.len() ==> name.skip(1)[i] == name[i + 1] by {}
        if search_match(pattern, name) {
            assert forall|i: int| 0 <= i < pattern.len() implies if #[trigger] pattern[i] == '?' {
                name[i] != '/'
            } else {
                pattern[i] == name[i] || text::lowercase_of(pattern[i]) == text::lowercase_of(
                    name[i],
                ) || text::uppercase_of(pattern[i]) == text::uppercase_of(name[i])
            } by {
                if i > 0 {
                    assert(rest[i - 1] == pattern[i]);
                    assert(name.skip(1)[i - 1] == name[i]);
                }
            }
        }
        if name.len() == pattern.len() && forall|i: int|
            0 <= i < pattern.len() ==> if #[trigger] pattern[i] == '?' {
                name[i] != '/'
            } else {
                pattern[i] == name[i] || text::lowercase_of(pattern[i]) == text::lowercase_of(
                    name[i],
                ) || text::uppercase_of(pattern[i]) == text::uppercase_of(name[i])
            } {
            assert forall|i: int| 0 <= i < rest.len() implies if #[trigger] rest[i] == '?' {
                name.skip(1)[i] != '/'
            } else {
                rest[i] == name.skip(1)[i] || text::lowercase_of(rest[i]) == text::lowercase_of(
                    name.skip(1)[i],
                ) || text::uppercase_of(rest[i]) == text::uppercase_of(name.skip(1)[i])
            } by {
                assert(rest[i] == pattern[i + 1]);
            }
            assert(pattern[0] == '?' || text::same_letter(pattern[0], name[0]));
        }
    }
}

/// No run of stars goes on from the first part into the second.
pub open spec fn parted(first: Seq<char>, second: Seq<char>) -> bool {
    !(first.len() > 0 && second.len() > 0 && first.last() == '*' && second[0] == '*')
}

proof fn lemma_parted_run(first: Seq<char>, second: Seq<char>)
    requires
        first.len() > 0,
        parted(first, second),
    ensures
        star_run(first + second) == star_run(first),
    decreases first.len(),
{
    let both = first + second;
    assert(both[0] == first[0]);
    if first[0] == '*' {
        assert(both.skip(1) =~= first.skip(1) + second);
        if first.len() > 1 {
            assert(first.skip(1).last() == first.last());
            lemma_parted_run(first.skip(1), second);
        } else {
            assert(first.last() == first[0]);
            assert(first.skip(1) + second =~= second);
            assert(star_run(second) == 0);
            assert(star_run(first.skip(1)) == 0);
            assert(star_run(both) == 1 + star_run(both.skip(1)));
        }
    }
}

/// A pattern of two parts matches exactly the names that fall into two parts of
/// which each is matched by its own part, as long as no run of stars is cut.
pub proof fn patterns_match_part_by_part(first: Seq<char>, second: Seq<char>, name: Seq<char>)
    requires
        parted(first, second),
    ensures
        search_match(first + second, name) <==> exists|k: int|
            0 <= k <= name.len() && search_match(first, #[trigger] name.take(k)) && search_match(
                second,
                name.skip(k),
            ),
    decreases first.len(),
{
    let both = first + second;
    if first.len() == 0 {
        assert(both =~= second);
        assert(name.skip(0) =~= name);
        if search_match(both, name) {
            assert(search_match(first, name.take(0)));
        }
        assert forall|k: int|
            0 <= k <= name.len() && search_match(first, #[trigger] name.take(k)) implies k
            == 0 by {}
    } else {
        lemma_parted_run(first, second);
        lemma_star_run(first);
        let run = star_run(first) as int;
        let step = if run > 1 { run } else { 1 };
        let rest = first.skip(step);
        assert(both.skip(step) =~= rest + second);
        assert(both[0] == first[0]);
        if rest.len() > 0 {
            assert(rest.last() == first.last());
        }
        if run > 0 {
            if search_match(both, name) {
                let j = choose|j: int|
                    0 <= j <= name.len() && (run > 1 || one_segment(name.take(j))) && search_match(
                        both.skip(step),
                        #[trigger] name.skip(j),
                    );
                patterns_match_part_by_part(rest, second, name.skip(j));
                let k = choose|k: int|
                    0 <= k <= name.skip(j).len() && search_match(
                        rest,
                        #[trigger] name.skip(j).take(k),
                    ) && search_match(second, name.skip(j).skip(k));
                assert(name.skip(j).skip(k) =~= name.skip(j + k));
                assert(name.take(j + k).skip(j) =~= name.skip(j).take(k));
                assert(name.take(j + k).take(j) =~= name.take(j));
                assert(search_match(rest, name.take(j + k).skip(j)));
                assert(search_match(first, name.take(j + k)));
            }
            if exists|k: int|
                0 <= k <= name.len() && search_match(first, #[trigger] name.take(k))
                    && search_match(second, name.skip(k)) {
                let k = choose|k: int|
                    0 <= k <= name.len() && search_match(first, #[trigger] name.take(k))
                        && search_match(second, name.skip(k));
                let j = choose|j: int|
                    0 <= j <= name.take(k).len() && (run > 1 || one_segment(name.take(k).take(j)))
                        && search_match(rest, #[trigger] name.take(k).skip(j));
                patterns_match_part_by_part(rest, second, name.skip(j));
                assert(name.take(k).skip(j) =~= name.skip(j).take(k - j));
                assert(name.take(k).take(j) =~= name.take(j));
                assert(name.skip(j).skip(k - j) =~= name.skip(k));
                assert(search_match(rest, name.skip(j).take(k - j)));
                assert(search_match(both.skip(step), name.skip(j)));
            }
        } else if name.len() > 0 {
            patterns_match_part_by_part(rest, second, name.skip(1));
            if search_match(both, name) {
                let k = choose|k: int|
                    0 <= k <= name.skip(1).len() && search_match(
                        rest,
                        #[trigger] name.skip(1).take(k),
                    ) && search_match(second, name.skip(1).skip(k));
                assert(name.skip(1).skip(k) =~= name.skip(k + 1));
                assert(name.take(k + 1).skip(1) =~= name.skip(1).take(k));
                assert(search_match(first, name.take(k + 1)));
            }
            if exists|k: int|
                0 <= k <= name.len() && search_match(first, #[trigger] name.take(k))
                    && search_match(second, name.skip(k)) {
                let k = choose|k: int|
                    0 <= k <= name.len() && search_match(first, #[trigger] name.take(k))
                        && search_match(second, name.skip(k));
                assert(name.take(k).len() > 0);
                assert(name.take(k).skip(1) =~= name.skip(1).take(k - 1));
                assert(name.skip(1).skip(k - 1) =~= name.skip(k));
                assert(search_match(rest, name.skip(1).take(k - 1)));
            }
        } else {
            assert forall|k: int| 0 <= k <= name.len() implies !search_match(
                first,
                #[trigger] name.take(k),
            ) by {}
        }
    }
}

/// A compiled search answers as its pattern says, and every pattern compiles.
pub proof fn compiled_searches_match_their_source(
    pattern: &str,
    compiled: Result<SearchMatcher, CliError>,
    name: &str,
    found: bool,
)
    requires
        call_ensures(SearchMatcher::compile, (pattern,), compiled),
        compiled is Ok ==> call_ensures(
            SearchMatcher::is_match,
            (&compiled->Ok_0, name),
            found,
        ),
    ensures
        compiled is Ok,
        found <==> search_match(pattern@, name@),
{
}

/// Matchers of the same form accept the same names, and one text always gives the
/// same form.
pub proof fn matchers_of_one_form_accept_alike(
    source: &str,
    left: SearchMatcher,
    right: SearchMatcher,
    name: Seq<char>,
)
    ensures
        left.same_form(&right) ==> (left.accepts(name) <==> right.accepts(name)),
        call_ensures(
            SearchMatcher::compile,
            (source,),
            Ok::<SearchMatcher, CliError>(left),
        ) && call_ensures(
            SearchMatcher::compile,
            (source,),
            Ok::<SearchMatcher, CliError>(right),
        ) ==> left.same_form(&right),
{
}

} // verus!
