//! Secret redaction and diagnostic policy.

use vstd::prelude::*;

use crate::assoc;
use crate::error;
use crate::error::CliError;
use crate::output;
use crate::output::{
    style_fragment, DiagnosticSink, StylePolicy, ANSI_MAGENTA, ANSI_YELLOW,
};
use crate::text;
use crate::text::{
    byte_order, bytes_equal, chars_of, control_character, decimal_text, hexadecimal_text,
    str_equal, string_of,
};

verus! {

/// Stable marker used in place of one or more overlapping secrets.
pub const REDACTED: &'static str = "[REDACTED]";

/// The bytes of the redaction marker.
pub open spec fn marker_bytes() -> Seq<u8> {
    vstd::utf8::encode_utf8(REDACTED@)
}

/// `secret` stands in `bytes` at position `at`.
pub open spec fn occurs(secret: Seq<u8>, bytes: Seq<u8>, at: int) -> bool {
    &&& 0 <= at
    &&& at + secret.len() <= bytes.len()
    &&& bytes.subrange(at, at + secret.len()) == secret
}

/// The byte at position `i` belongs to an occurrence of a secret.
pub open spec fn covered(secrets: Set<Seq<u8>>, bytes: Seq<u8>, i: int) -> bool {
    exists|secret: Seq<u8>, at: int|
        secrets.contains(secret) && #[trigger] occurs(secret, bytes, at) && at <= i < at
            + secret.len()
}

/// One element of redacted output.
pub enum Piece {
    Byte(u8),
    Marker,
}

/// The bytes that a sequence of pieces stands for.
pub open spec fn rendered(pieces: Seq<Piece>) -> Seq<u8>
    decreases pieces.len(),
{
    if pieces.len() == 0 {
        Seq::empty()
    } else {
        rendered(pieces.drop_last()) + (match pieces.last() {
            Piece::Byte(byte) => seq![byte],
            Piece::Marker => marker_bytes(),
        })
    }
}

/// What one position of a window contributes to the output: the byte itself if
/// no secret covers it, a marker if a covered run starts there, and nothing
/// otherwise. The first `accounted` positions are represented by an earlier
/// marker already.
pub open spec fn item(secrets: Set<Seq<u8>>, window: Seq<u8>, accounted: nat, i: int) -> Seq<Piece> {
    if i < accounted {
        Seq::empty()
    } else if !covered(secrets, window, i) {
        seq![Piece::Byte(window[i])]
    } else if i == 0 || !covered(secrets, window, i - 1) {
        seq![Piece::Marker]
    } else {
        Seq::empty()
    }
}

/// What the first `n` positions of a window contribute to the output.
pub open spec fn items(secrets: Set<Seq<u8>>, window: Seq<u8>, accounted: nat, n: nat) -> Seq<Piece>
    decreases n,
{
    if n == 0 {
        Seq::empty()
    } else {
        items(secrets, window, accounted, (n - 1) as nat) + item(
            secrets,
            window,
            accounted,
            n - 1,
        )
    }
}

/// The redaction of complete bytes: every maximal covered run becomes one
/// marker, every other byte stays.
pub open spec fn redaction(secrets: Set<Seq<u8>>, bytes: Seq<u8>) -> Seq<Piece> {
    items(secrets, bytes, 0, bytes.len())
}

/// The secrets behind a list of values.
pub open spec fn secret_values(values: Seq<Vec<u8>>) -> Set<Seq<u8>> {
    Set::new(|secret: Seq<u8>| exists|i: int| 0 <= i < values.len() && (#[trigger] values[i])@ == secret)
}

/// Deduplicated non-empty byte strings that must never reach diagnostics.
///
/// There is no debug form of the values: describing a `SecretSet` must not
/// itself disclose credentials.
#[derive(Clone, PartialEq, Eq)]
pub struct SecretSet {
    values: Vec<Vec<u8>>,
    max_secret_len: usize,
}

impl View for SecretSet {
    type V = Set<Seq<u8>>;

    closed spec fn view(&self) -> Set<Seq<u8>> {
        secret_values(self.values@)
    }
}

impl Default for SecretSet {
    /// The set without secrets.
    fn default() -> (r: Self)
        ensures
            r.wf(),
            r@ == Set::<Seq<u8>>::empty(),
            r.count() == 0,
            r.longest() == 0,
    {
        SecretSet::new()
    }
}

/// No secret is empty or longer than `longest`, and one has that length.
pub open spec fn longest_secret(secrets: Set<Seq<u8>>, longest: nat) -> bool {
    &&& forall|secret: Seq<u8>| #[trigger]
        secrets.contains(secret) ==> 0 < secret.len() <= longest
    &&& longest > 0 ==> exists|secret: Seq<u8>| #[trigger]
        secrets.contains(secret) && secret.len() == longest
}

impl SecretSet {
    /// The values are ascending, not empty, and as long as recorded.
    pub closed spec fn wf(&self) -> bool {
        &&& forall|i: int, j: int|
            #![trigger self.values@[i], self.values@[j]]
            0 <= i < j < self.values@.len() ==> text::bytes_before(
                self.values@[i]@,
                self.values@[j]@,
            )
        &&& longest_secret(self@, self.max_secret_len as nat)
    }

    /// The number of registered secrets.
    pub closed spec fn count(&self) -> nat {
        self.values@.len()
    }

    /// The length of the longest registered secret.
    pub closed spec fn longest(&self) -> nat {
        self.max_secret_len as nat
    }

    /// Of a well-formed set: no secret is empty, the recorded length is that of
    /// the longest one, and the recorded number is the number of secrets.
    pub proof fn lemma_recorded(&self)
        requires
            self.wf(),
        ensures
            longest_secret(self@, self.longest()),
            self@.finite(),
            self@.len() == self.count(),
    {
        let contents = self.values@.map_values(|value: Vec<u8>| value@);
        assert forall|i: int, j: int|
            0 <= i < contents.len() && 0 <= j < contents.len() && i != j implies contents[i]
            != contents[j] by {
            let (low, high) = if i < j { (i, j) } else { (j, i) };
            assert(text::bytes_before(self.values@[low]@, self.values@[high]@));
            text::lemma_bytes_before_asymmetric(contents[low], contents[high]);
        }
        assert(contents.no_duplicates());
        contents.unique_seq_to_set();
        vstd::seq_lib::seq_to_set_is_finite(contents);
        assert(contents.to_set() =~= self@) by {
            assert forall|secret: Seq<u8>| contents.to_set().contains(secret)
                <==> #[trigger] self@.contains(secret) by {
                if contents.contains(secret) {
                    let i = choose|i: int| 0 <= i < contents.len() && contents[i] == secret;
                    assert(self.values@[i]@ == secret);
                }
                if self@.contains(secret) {
                    let i = choose|i: int|
                        0 <= i < self.values@.len() && (#[trigger] self.values@[i])@ == secret;
                    assert(contents[i] == secret);
                }
            }
        }
    }

    pub fn new() -> (r: Self)
        ensures
            r.wf(),
            r@ == Set::<Seq<u8>>::empty(),
            r.count() == 0,
            r.longest() == 0,
    {
        let r = SecretSet { values: Vec::new(), max_secret_len: 0 };
        assert(r@ =~= Set::<Seq<u8>>::empty());
        r
    }

    /// Registers a secret. Empty values are ignored and duplicate values are
    /// stored only once. Returns whether a new value was inserted.
    pub fn insert(&mut self, value: &[u8]) -> (r: bool)
        requires
            old(self).wf(),
        ensures
            final(self).wf(),
            r == (value@.len() > 0 && !old(self)@.contains(value@)),
            final(self)@ == (if value@.len() > 0 {
                old(self)@.insert(value@)
            } else {
                old(self)@
            }),
            final(self).count() == old(self).count() + (if r {
                1int
            } else {
                0
            }),
            final(self).longest() == (if value@.len() > old(self).longest() {
                value@.len()
            } else {
                old(self).longest()
            }),
    {
        if value.len() == 0 {
            return false;
        }
        let ghost before = *self;
        let mut position: usize = 0;
        while position < self.values.len() && byte_order(self.values[position].as_slice(), value)
            invariant
                *self == before,
                before.wf(),
                position <= self.values.len(),
                forall|i: int|
                    0 <= i < position ==> text::bytes_before(
                        (#[trigger] self.values@[i])@,
                        value@,
                    ),
            decreases self.values.len() - position,
        {
            position += 1;
        }
        if position < self.values.len() && bytes_equal(self.values[position].as_slice(), value) {
            assert(self.values@[position as int]@ == value@);
            assert(self@.insert(value@) =~= self@);
            return false;
        }
        proof {
            assert forall|i: int| position <= i < before.values@.len() implies text::bytes_before(
                value@,
                (#[trigger] before.values@[i])@,
            ) by {
                text::lemma_bytes_before_asymmetric(before.values@[position as int]@, value@);
                if i > position {
                    text::lemma_bytes_before_transitive(
                        value@,
                        before.values@[position as int]@,
                        before.values@[i]@,
                    );
                }
            }
            assert forall|i: int| 0 <= i < before.values@.len() implies (
            #[trigger] before.values@[i])@ != value@ by {
                text::lemma_bytes_before_asymmetric(before.values@[i]@, value@);
            }
        }
        let copy = vstd::slice::slice_to_vec(value);
        self.values.insert(position, copy);
        proof {
            let old_values = before.values@;
            let new_values = self.values@;
            assert forall|secret: Seq<u8>| #[trigger] secret_values(new_values).contains(secret)
                <==> before@.insert(value@).contains(secret) by {
                if secret_values(new_values).contains(secret) {
                    let i = choose|i: int|
                        0 <= i < new_values.len() && (#[trigger] new_values[i])@ == secret;
                    if i < position {
                        assert(old_values[i]@ == secret);
                    } else if i > position {
                        assert(old_values[i - 1]@ == secret);
                    }
                }
                if before@.contains(secret) {
                    let i = choose|i: int|
                        0 <= i < old_values.len() && (#[trigger] old_values[i])@ == secret;
                    if i < position {
                        assert(new_values[i]@ == secret);
                    } else {
                        assert(new_values[i + 1]@ == secret);
                    }
                }
                if secret == value@ {
                    assert(new_values[position as int]@ == secret);
                }
            }
            assert(secret_values(new_values) =~= before@.insert(value@));
            assert forall|i: int, j: int|
                #![trigger new_values[i], new_values[j]]
                0 <= i < j < new_values.len() implies text::bytes_before(
                new_values[i]@,
                new_values[j]@,
            ) by {
                let i2 = if i < position { i } else { i - 1 };
                let j2 = if j < position { j } else { j - 1 };
                if i != position {
                    assert(new_values[i] == old_values[i2]);
                }
                if j != position {
                    assert(new_values[j] == old_values[j2]);
                }
            }
        }
        if value.len() > self.max_secret_len {
            self.max_secret_len = value.len();
        }
        proof {
            assert(self@ =~= before@.insert(value@));
            if self.max_secret_len == value@.len() {
                assert(self@.contains(value@));
            } else {
                let secret = choose|secret: Seq<u8>| #[trigger]
                    before@.contains(secret) && secret.len() == before.max_secret_len;
                assert(self@.contains(secret));
            }
        }
        true
    }

    /// Registers a configured environment value. The name is accepted for a
    /// convenient loader API but is intentionally not retained.
    pub fn register_env(&mut self, _name: &str, value: &[u8]) -> (r: bool)
        requires
            old(self).wf(),
        ensures
            final(self).wf(),
            r == (value@.len() > 0 && !old(self)@.contains(value@)),
            final(self)@ == (if value@.len() > 0 {
                old(self)@.insert(value@)
            } else {
                old(self)@
            }),
            final(self).count() == old(self).count() + (if r {
                1int
            } else {
                0
            }),
            final(self).longest() == (if value@.len() > old(self).longest() {
                value@.len()
            } else {
                old(self).longest()
            }),
    {
        self.insert(value)
    }

    /// Registers a configured HTTP header value. All configured header values
    /// are sensitive, including but not limited to Authorization and Cookie.
    pub fn register_header(&mut self, _name: &str, value: &[u8]) -> (r: bool)
        requires
            old(self).wf(),
        ensures
            final(self).wf(),
            r == (value@.len() > 0 && !old(self)@.contains(value@)),
            final(self)@ == (if value@.len() > 0 {
                old(self)@.insert(value@)
            } else {
                old(self)@
            }),
            final(self).count() == old(self).count() + (if r {
                1int
            } else {
                0
            }),
            final(self).longest() == (if value@.len() > old(self).longest() {
                value@.len()
            } else {
                old(self).longest()
            }),
    {
        self.insert(value)
    }

    pub fn register_authorization(&mut self, value: &[u8]) -> (r: bool)
        requires
            old(self).wf(),
        ensures
            final(self).wf(),
            r == (value@.len() > 0 && !old(self)@.contains(value@)),
            final(self)@ == (if value@.len() > 0 {
                old(self)@.insert(value@)
            } else {
                old(self)@
            }),
            final(self).count() == old(self).count() + (if r {
                1int
            } else {
                0
            }),
            final(self).longest() == (if value@.len() > old(self).longest() {
                value@.len()
            } else {
                old(self).longest()
            }),
    {
        self.insert(value)
    }

    pub fn register_cookie(&mut self, value: &[u8]) -> (r: bool)
        requires
            old(self).wf(),
        ensures
            final(self).wf(),
            r == (value@.len() > 0 && !old(self)@.contains(value@)),
            final(self)@ == (if value@.len() > 0 {
                old(self)@.insert(value@)
            } else {
                old(self)@
            }),
            final(self).count() == old(self).count() + (if r {
                1int
            } else {
                0
            }),
            final(self).longest() == (if value@.len() > old(self).longest() {
                value@.len()
            } else {
                old(self).longest()
            }),
    {
        self.insert(value)
    }

    pub fn len(&self) -> (r: usize)
        ensures
            r == self.count(),
    {
        self.values.len()
    }

    pub fn is_empty(&self) -> (r: bool)
        ensures
            r == (self.count() == 0),
    {
        self.values.len() == 0
    }

    pub fn max_secret_len(&self) -> (r: usize)
        ensures
            r == self.longest(),
    {
        self.max_secret_len
    }

    /// Aggregate metadata only.
    pub fn debug_text(&self) -> (r: String)
        ensures
            r@ == "SecretSet { len: "@ + text::decimal(self.count()) + ", max_secret_len: "@
                + text::decimal(self.longest()) + " }"@,
    {
        let mut line = "SecretSet { len: ".to_owned();
        line.append(decimal_text(self.values.len() as u128).as_str());
        line.append(", max_secret_len: ");
        line.append(decimal_text(self.max_secret_len as u128).as_str());
        line.append(" }");
        line
    }

    /// A copy of the set.
    pub fn duplicate(&self) -> (r: Self)
        requires
            self.wf(),
        ensures
            r.wf(),
            r@ == self@,
            r.count() == self.count(),
            r.longest() == self.longest(),
    {
        let mut values: Vec<Vec<u8>> = Vec::new();
        let mut index: usize = 0;
        while index < self.values.len()
            invariant
                index <= self.values.len(),
                values.len() == index,
                forall|i: int| 0 <= i < index ==> (#[trigger] values@[i])@ == self.values@[i]@,
            decreases self.values.len() - index,
        {
            values.push(vstd::slice::slice_to_vec(self.values[index].as_slice()));
            index += 1;
        }
        let r = SecretSet { values, max_secret_len: self.max_secret_len };
        proof {
            assert forall|secret: Seq<u8>| r@.contains(secret) <==> self@.contains(secret) by {
                if r@.contains(secret) {
                    let i = choose|i: int|
                        0 <= i < r.values@.len() && (#[trigger] r.values@[i])@ == secret;
                    assert(self.values@[i]@ == secret);
                }
                if self@.contains(secret) {
                    let i = choose|i: int|
                        0 <= i < self.values@.len() && (#[trigger] self.values@[i])@ == secret;
                    assert(r.values@[i]@ == secret);
                }
            }
            assert(r@ =~= self@);
        }
        r
    }

    /// Which bytes belong to an occurrence of a secret.
    fn coverage(&self, bytes: &[u8]) -> (r: Vec<bool>)
        ensures
            r@.len() == bytes@.len(),
            forall|i: int|
                0 <= i < bytes@.len() ==> #[trigger] r@[i] == covered(self@, bytes@, i),
    {
        let mut marks: Vec<bool> = Vec::new();
        let mut filled: usize = 0;
        while filled < bytes.len()
            invariant
                filled <= bytes.len(),
                marks.len() == filled,
                forall|i: int| 0 <= i < filled ==> !#[trigger] marks@[i],
            decreases bytes.len() - filled,
        {
            marks.push(false);
            filled += 1;
        }
        let mut which: usize = 0;
        while which < self.values.len()
            invariant
                which <= self.values.len(),
                marks.len() == bytes.len(),
                forall|i: int|
                    0 <= i < marks.len() ==> #[trigger] marks@[i] == covered_so_far(
                        self.values@,
                        bytes@,
                        i,
                        which as int,
                        0,
                    ),
            decreases self.values.len() - which,
        {
            let secret = self.values[which].as_slice();
            let mut start: usize = 0;
            while start < bytes.len()
                invariant
                    which < self.values.len(),
                    secret@ == self.values@[which as int]@,
                    start <= bytes.len(),
                    marks.len() == bytes.len(),
                    forall|i: int|
                        0 <= i < marks.len() ==> #[trigger] marks@[i] == covered_so_far(
                            self.values@,
                            bytes@,
                            i,
                            which as int,
                            start as int,
                        ),
                decreases bytes.len() - start,
            {
                let ghost before = marks@;
                if secret.len() <= bytes.len() - start && bytes_equal(
                    vstd::slice::slice_subrange(bytes, start, start + secret.len()),
                    secret,
                ) {
                    assert(occurs(secret@, bytes@, start as int));
                    let mut position: usize = start;
                    while position < start + secret.len()
                        invariant
                            start <= position <= start + secret.len() <= bytes.len(),
                            marks.len() == bytes.len(),
                            before.len() == bytes.len(),
                            forall|i: int|
                                0 <= i < marks.len() ==> #[trigger] marks@[i] == (before[i] || start
                                    <= i < position),
                        decreases start + secret.len() - position,
                    {
                        marks.set(position, true);
                        position += 1;
                    }
                } else {
                    assert(!occurs(secret@, bytes@, start as int));
                }
                proof {
                    assert forall|i: int| 0 <= i < marks.len() implies #[trigger] marks@[i]
                        == covered_so_far(
                        self.values@,
                        bytes@,
                        i,
                        which as int,
                        start + 1,
                    ) by {
                        assert(before[i] == covered_so_far(
                            self.values@,
                            bytes@,
                            i,
                            which as int,
                            start as int,
                        ));
                        lemma_covered_next_start(
                            self.values@,
                            bytes@,
                            i,
                            which as int,
                            start as int,
                        );
                    }
                }
                start += 1;
            }
            proof {
                assert forall|i: int| 0 <= i < marks.len() implies #[trigger] marks@[i]
                    == covered_so_far(self.values@, bytes@, i, which + 1, 0) by {
                    lemma_covered_next_secret(self.values@, bytes@, i, which as int);
                }
            }
            which += 1;
        }
        proof {
            assert forall|i: int| 0 <= i < bytes@.len() implies #[trigger] marks@[i] == covered(
                self@,
                bytes@,
                i,
            ) by {
                lemma_covered_complete(self.values@, bytes@, i);
            }
        }
        marks
    }
}

/// The byte is covered by one of the first `which` secrets, or by the next one
/// at a position before `start`.
spec fn covered_so_far(
    values: Seq<Vec<u8>>,
    bytes: Seq<u8>,
    i: int,
    which: int,
    start: int,
) -> bool {
    exists|w: int, at: int|
        0 <= w < values.len() && (w < which || (w == which && at < start)) && #[trigger] occurs(
            values[w]@,
            bytes,
            at,
        ) && at <= i < at + values[w]@.len()
}

proof fn lemma_covered_next_start(
    values: Seq<Vec<u8>>,
    bytes: Seq<u8>,
    i: int,
    which: int,
    start: int,
)
    requires
        0 <= which < values.len(),
    ensures
        covered_so_far(values, bytes, i, which, start + 1) == (covered_so_far(
            values,
            bytes,
            i,
            which,
            start,
        ) || (occurs(values[which]@, bytes, start) && start <= i < start + values[which]@.len())),
{
    if covered_so_far(values, bytes, i, which, start + 1) {
        let (w, at) = choose|w: int, at: int|
            0 <= w < values.len() && (w < which || (w == which && at < start + 1))
                && #[trigger] occurs(values[w]@, bytes, at) && at <= i < at + values[w]@.len();
        if w < which || at < start {
            assert(covered_so_far(values, bytes, i, which, start));
        }
    }
}

proof fn lemma_covered_next_secret(values: Seq<Vec<u8>>, bytes: Seq<u8>, i: int, which: int)
    requires
        0 <= which < values.len(),
    ensures
        covered_so_far(values, bytes, i, which + 1, 0) == covered_so_far(
            values,
            bytes,
            i,
            which,
            bytes.len() as int,
        ),
{
    if covered_so_far(values, bytes, i, which + 1, 0) {
        let (w, at) = choose|w: int, at: int|
            0 <= w < values.len() && (w < which + 1 || (w == which + 1 && at < 0))
                && #[trigger] occurs(values[w]@, bytes, at) && at <= i < at + values[w]@.len();
        assert(at < bytes.len());
        assert(covered_so_far(values, bytes, i, which, bytes.len() as int));
    }
    if covered_so_far(values, bytes, i, which, bytes.len() as int) {
        let (w, at) = choose|w: int, at: int|
            0 <= w < values.len() && (w < which || (w == which && at < bytes.len()))
                && #[trigger] occurs(values[w]@, bytes, at) && at <= i < at + values[w]@.len();
        assert(covered_so_far(values, bytes, i, which + 1, 0));
    }
}

proof fn lemma_covered_complete(values: Seq<Vec<u8>>, bytes: Seq<u8>, i: int)
    ensures
        covered_so_far(values, bytes, i, values.len() as int, 0) == covered(
            secret_values(values),
            bytes,
            i,
        ),
{
    if covered_so_far(values, bytes, i, values.len() as int, 0) {
        let (w, at) = choose|w: int, at: int|
            0 <= w < values.len() && (w < values.len() || (w == values.len() && at < 0))
                && #[trigger] occurs(values[w]@, bytes, at) && at <= i < at + values[w]@.len();
        assert(secret_values(values).contains(values[w]@));
    }
    if covered(secret_values(values), bytes, i) {
        let (secret, at) = choose|secret: Seq<u8>, at: int|
            secret_values(values).contains(secret) && #[trigger] occurs(secret, bytes, at) && at
                <= i < at + secret.len();
        let w = choose|w: int| 0 <= w < values.len() && (#[trigger] values[w])@ == secret;
        assert(occurs(values[w]@, bytes, at));
    }
}

/// The output of the first `limit` positions of a window.
fn emit(bytes: &[u8], marks: &Vec<bool>, accounted: usize, limit: usize, secrets: Ghost<Set<Seq<u8>>>) -> (r: Vec<u8>)
    requires
        marks@.len() == bytes@.len(),
        limit <= bytes@.len(),
        forall|i: int|
            0 <= i < bytes@.len() ==> #[trigger] marks@[i] == covered(secrets@, bytes@, i),
    ensures
        r@ == rendered(items(secrets@, bytes@, accounted as nat, limit as nat)),
{
    let mut output: Vec<u8> = Vec::new();
    let mut index: usize = 0;
    while index < limit
        invariant
            index <= limit <= bytes@.len(),
            marks@.len() == bytes@.len(),
            forall|i: int|
                0 <= i < bytes@.len() ==> #[trigger] marks@[i] == covered(secrets@, bytes@, i),
            output@ == rendered(items(secrets@, bytes@, accounted as nat, index as nat)),
        decreases limit - index,
    {
        let ghost before = items(secrets@, bytes@, accounted as nat, index as nat);
        let ghost next = item(secrets@, bytes@, accounted as nat, index as int);
        if index >= accounted {
            if !marks[index] {
                output.push(bytes[index]);
                assert((before + next).drop_last() =~= before);
                assert(output@ =~= rendered(before) + seq![bytes@[index as int]]);
            } else if index == 0 || !marks[index - 1] {
                let marker = REDACTED.as_bytes();
                append_bytes(&mut output, marker);
                assert((before + next).drop_last() =~= before);
            } else {
                assert(before + next =~= before);
            }
        } else {
            assert(before + next =~= before);
        }
        index += 1;
    }
    output
}

/// Appends bytes.
pub fn append_bytes(target: &mut Vec<u8>, bytes: &[u8])
    ensures
        final(target)@ == old(target)@ + bytes@,
{
    let ghost before = target@;
    let mut index: usize = 0;
    assert(before + bytes@.take(0) =~= before);
    while index < bytes.len()
        invariant
            index <= bytes.len(),
            target@ == before + bytes@.take(index as int),
        decreases bytes.len() - index,
    {
        target.push(bytes[index]);
        assert(before + bytes@.take(index + 1) =~= (before + bytes@.take(index as int)).push(
            bytes@[index as int],
        ));
        index += 1;
    }
    assert(bytes@.take(index as int) =~= bytes@);
}

/// The text of bytes in which invalid sequences are replaced.
pub uninterp spec fn lossy_text(bytes: Seq<u8>) -> Seq<char>;

/// `String::from_utf8_lossy`: the result depends on the bytes alone, and valid
/// UTF-8 is decoded as it is.
#[verifier::external_body]
fn from_utf8_lossy(bytes: &[u8]) -> (r: String)
    ensures
        r@ == lossy_text(bytes@),
        vstd::utf8::valid_utf8(bytes@) ==> vstd::utf8::encode_utf8(r@) == bytes@,
{
    String::from_utf8_lossy(bytes).into_owned()
}

/// Decodes bytes for display.
pub fn lossy(bytes: &[u8]) -> (r: String)
    ensures
        r@ == lossy_text(bytes@),
        vstd::utf8::valid_utf8(bytes@) ==> vstd::utf8::encode_utf8(r@) == bytes@,
{
    from_utf8_lossy(bytes)
}

impl SecretSet {
    /// Redacts text without assuming registered secrets align to UTF-8 scalar
    /// boundaries. Lossy conversion is intentional for that pathological case.
    pub fn redact(&self, text: &str) -> (r: String)
        ensures
            r@ == lossy_text(rendered(redaction(self@, vstd::utf8::encode_utf8(text@)))),
    {
        from_utf8_lossy(self.redact_bytes(text.as_bytes()).as_slice())
    }

    /// Redacts arbitrary bytes. Invalid UTF-8 is never decoded here, so server
    /// stderr cannot panic or bypass matching through a decoding failure.
    pub fn redact_bytes(&self, bytes: &[u8]) -> (r: Vec<u8>)
        ensures
            r@ == rendered(redaction(self@, bytes@)),
    {
        let marks = self.coverage(bytes);
        emit(bytes, &marks, 0, bytes.len(), Ghost(self@))
    }
}

/// What a streaming redactor retains: the bytes that a later chunk can still
/// complete to a secret, and how many of them a marker stands for already.
#[verifier::ext_equal]
pub struct Retained {
    pub pending: Seq<u8>,
    pub accounted: nat,
}

/// How many positions of a window are decided while more input may come.
pub open spec fn decided(longest: nat, window: Seq<u8>) -> nat {
    let undecided = if longest > 0 {
        (longest - 1) as nat
    } else {
        0
    };
    if window.len() > undecided {
        (window.len() - undecided) as nat
    } else {
        0
    }
}

/// The end of the covered run that goes on at position `from`.
pub open spec fn run_end(secrets: Set<Seq<u8>>, window: Seq<u8>, from: int) -> int
    decreases window.len() - from,
{
    if from < window.len() && covered(secrets, window, from) {
        run_end(secrets, window, from + 1)
    } else {
        from
    }
}

/// What is retained after a chunk has been taken in.
pub open spec fn retained_after(
    secrets: Set<Seq<u8>>,
    longest: nat,
    state: Retained,
    chunk: Seq<u8>,
) -> Retained {
    let window = state.pending + chunk;
    let n = decided(longest, window);
    let reach = if n > 0 && covered(secrets, window, n - 1) {
        run_end(secrets, window, n as int)
    } else {
        n as int
    };
    Retained {
        pending: window.skip(n as int),
        accounted: if n == 0 {
            state.accounted
        } else if reach > state.accounted {
            (reach - n) as nat
        } else {
            (state.accounted - n) as nat
        },
    }
}

/// What is emitted when a chunk is taken in.
pub open spec fn emitted(
    secrets: Set<Seq<u8>>,
    longest: nat,
    state: Retained,
    chunk: Seq<u8>,
) -> Seq<Piece> {
    let window = state.pending + chunk;
    items(secrets, window, state.accounted, decided(longest, window))
}

/// What is emitted at the end of the stream.
pub open spec fn flushed(secrets: Set<Seq<u8>>, state: Retained) -> Seq<Piece> {
    items(secrets, state.pending, state.accounted, state.pending.len())
}

/// Incremental byte redactor that prevents credentials spanning input chunks
/// from being emitted before enough bytes are available to decide safely.
#[derive(Clone)]
pub struct StreamingRedactor {
    secrets: SecretSet,
    pending: Vec<u8>,
    /// How many leading pending bytes are represented by a redaction marker
    /// already. This is needed when a later occurrence overlaps an earlier match.
    accounted: usize,
}

impl StreamingRedactor {
    pub closed spec fn secrets(&self) -> Set<Seq<u8>> {
        self.secrets@
    }

    pub closed spec fn longest(&self) -> nat {
        self.secrets.longest()
    }

    pub closed spec fn retained(&self) -> Retained {
        Retained { pending: self.pending@, accounted: self.accounted as nat }
    }

    /// The retained bytes are too few to hold a whole secret.
    pub closed spec fn wf(&self) -> bool {
        &&& self.secrets.wf()
        &&& self.accounted <= self.pending@.len()
        &&& self.pending@.len() < self.secrets.longest() || self.pending@.len() == 0
    }

    pub fn new(secrets: SecretSet) -> (r: Self)
        requires
            secrets.wf(),
        ensures
            r.wf(),
            r.secrets() == secrets@,
            r.longest() == secrets.longest(),
            r.retained() == (Retained { pending: Seq::empty(), accounted: 0 }),
    {
        StreamingRedactor { secrets, pending: Vec::new(), accounted: 0 }
    }

    pub fn from_secret_set(secrets: &SecretSet) -> (r: Self)
        requires
            secrets.wf(),
        ensures
            r.wf(),
            r.secrets() == secrets@,
            r.longest() == secrets.longest(),
            r.retained() == (Retained { pending: Seq::empty(), accounted: 0 }),
    {
        StreamingRedactor::new(secrets.duplicate())
    }

    /// Adds a chunk and returns all bytes now known to be safe. At most
    /// `max_secret_len - 1` undecided source bytes remain buffered.
    pub fn push(&mut self, chunk: &[u8]) -> (r: Vec<u8>)
        requires
            old(self).wf(),
        ensures
            final(self).wf(),
            final(self).secrets() == old(self).secrets(),
            final(self).longest() == old(self).longest(),
            final(self).retained() == retained_after(
                old(self).secrets(),
                old(self).longest(),
                old(self).retained(),
                chunk@,
            ),
            r@ == rendered(
                emitted(
                    old(self).secrets(),
                    old(self).longest(),
                    old(self).retained(),
                    chunk@,
                ),
            ),
    {
        append_bytes(&mut self.pending, chunk);
        let retained = if self.secrets.max_secret_len() > 0 {
            self.secrets.max_secret_len() - 1
        } else {
            0
        };
        if self.pending.len() <= retained {
            assert(self.pending@.skip(0) =~= self.pending@);
            return Vec::new();
        }
        let safe_end: usize = self.pending.len() - retained;
        let marks = self.secrets.coverage(self.pending.as_slice());
        let output = emit(
            self.pending.as_slice(),
            &marks,
            self.accounted,
            safe_end,
            Ghost(self.secrets@),
        );
        let ghost window = self.pending@;
        let ghost secrets = self.secrets@;
        let mut reach: usize = safe_end;
        if marks[safe_end - 1] {
            while reach < marks.len() && marks[reach]
                invariant
                    safe_end <= reach <= marks@.len(),
                    marks@.len() == window.len(),
                    forall|i: int|
                        0 <= i < window.len() ==> #[trigger] marks@[i] == covered(
                            secrets,
                            window,
                            i,
                        ),
                    run_end(secrets, window, safe_end as int) == run_end(
                        secrets,
                        window,
                        reach as int,
                    ),
                decreases marks@.len() - reach,
            {
                reach += 1;
            }
        }
        // Keep exactly the suffix that could participate in a future match.
        // The accounted count suppresses bytes already represented by a marker
        // if a later occurrence overlaps that marker's source range.
        let mut suffix: Vec<u8> = Vec::new();
        append_bytes(
            &mut suffix,
            vstd::slice::slice_subrange(self.pending.as_slice(), safe_end, self.pending.len()),
        );
        assert(suffix@ =~= window.skip(safe_end as int));
        self.pending = suffix;
        if reach > self.accounted {
            self.accounted = reach - safe_end;
        } else {
            self.accounted = self.accounted - safe_end;
        }
        output
    }

    /// Alias useful at stream-oriented adapter call sites.
    pub fn redact_chunk(&mut self, chunk: &[u8]) -> (r: Vec<u8>)
        requires
            old(self).wf(),
        ensures
            final(self).wf(),
            final(self).secrets() == old(self).secrets(),
            final(self).longest() == old(self).longest(),
            final(self).retained() == retained_after(
                old(self).secrets(),
                old(self).longest(),
                old(self).retained(),
                chunk@,
            ),
            r@ == rendered(
                emitted(
                    old(self).secrets(),
                    old(self).longest(),
                    old(self).retained(),
                    chunk@,
                ),
            ),
    {
        self.push(chunk)
    }

    /// Safely emits all remaining bytes at end-of-stream.
    pub fn flush(&mut self) -> (r: Vec<u8>)
        requires
            old(self).wf(),
        ensures
            final(self).wf(),
            final(self).secrets() == old(self).secrets(),
            final(self).longest() == old(self).longest(),
            final(self).retained() == (Retained { pending: Seq::empty(), accounted: 0 }),
            r@ == rendered(flushed(old(self).secrets(), old(self).retained())),
    {
        let marks = self.secrets.coverage(self.pending.as_slice());
        let output = emit(
            self.pending.as_slice(),
            &marks,
            self.accounted,
            self.pending.len(),
            Ghost(self.secrets@),
        );
        self.pending = Vec::new();
        self.accounted = 0;
        output
    }

    pub fn pending_len(&self) -> (r: usize)
        requires
            self.wf(),
        ensures
            r == self.retained().pending.len(),
            r < self.longest() || r == 0,
    {
        self.pending.len()
    }
}


/// Adjacent markers merged into one.
pub open spec fn collapsed(pieces: Seq<Piece>) -> Seq<Piece>
    decreases pieces.len(),
{
    if pieces.len() == 0 {
        Seq::empty()
    } else if pieces.len() > 1 && pieces.last() == Piece::Marker && pieces[pieces.len() - 2]
        == Piece::Marker {
        collapsed(pieces.drop_last())
    } else {
        collapsed(pieces.drop_last()).push(pieces.last())
    }
}

/// The bytes among a sequence of pieces.
pub open spec fn plain_bytes(pieces: Seq<Piece>) -> Seq<u8>
    decreases pieces.len(),
{
    if pieces.len() == 0 {
        Seq::empty()
    } else {
        match pieces.last() {
            Piece::Byte(byte) => plain_bytes(pieces.drop_last()).push(byte),
            Piece::Marker => plain_bytes(pieces.drop_last()),
        }
    }
}

/// The first `n` bytes without those that a secret covers.
pub open spec fn uncovered(secrets: Set<Seq<u8>>, bytes: Seq<u8>, n: nat) -> Seq<u8>
    decreases n,
{
    if n == 0 {
        Seq::empty()
    } else if covered(secrets, bytes, n - 1) {
        uncovered(secrets, bytes, (n - 1) as nat)
    } else {
        uncovered(secrets, bytes, (n - 1) as nat).push(bytes[n - 1])
    }
}

/// All bytes of a sequence of chunks.
pub open spec fn joined_chunks(chunks: Seq<Seq<u8>>) -> Seq<u8>
    decreases chunks.len(),
{
    if chunks.len() == 0 {
        Seq::empty()
    } else {
        joined_chunks(chunks.drop_last()) + chunks.last()
    }
}

/// What is retained after a sequence of chunks.
pub open spec fn stream_state(
    secrets: Set<Seq<u8>>,
    longest: nat,
    chunks: Seq<Seq<u8>>,
) -> Retained
    decreases chunks.len(),
{
    if chunks.len() == 0 {
        Retained { pending: Seq::empty(), accounted: 0 }
    } else {
        retained_after(
            secrets,
            longest,
            stream_state(secrets, longest, chunks.drop_last()),
            chunks.last(),
        )
    }
}

/// What is emitted while a sequence of chunks is taken in.
pub open spec fn stream_output(
    secrets: Set<Seq<u8>>,
    longest: nat,
    chunks: Seq<Seq<u8>>,
) -> Seq<Piece>
    decreases chunks.len(),
{
    if chunks.len() == 0 {
        Seq::empty()
    } else {
        stream_output(secrets, longest, chunks.drop_last()) + emitted(
            secrets,
            longest,
            stream_state(secrets, longest, chunks.drop_last()),
            chunks.last(),
        )
    }
}

/// What is emitted for a whole stream, its end included.
pub open spec fn streamed(secrets: Set<Seq<u8>>, longest: nat, chunks: Seq<Seq<u8>>) -> Seq<Piece> {
    stream_output(secrets, longest, chunks) + flushed(
        secrets,
        stream_state(secrets, longest, chunks),
    )
}

/// No secret is empty or longer than `longest`.
spec fn bounded(secrets: Set<Seq<u8>>, longest: nat) -> bool {
    forall|secret: Seq<u8>| #[trigger] secrets.contains(secret) ==> 0 < secret.len() <= longest
}

/// Where the stream stands relative to the bytes seen so far: everything before
/// `base` is decided, and the next `accounted` bytes are covered by occurrences
/// that began before.
spec fn position(secrets: Set<Seq<u8>>, longest: nat, seen: Seq<u8>, base: int, accounted: nat) -> bool {
    &&& 0 <= base
    &&& base + accounted <= seen.len()
    &&& base > 0 ==> seen.len() - base >= longest - 1
    &&& accounted > 0 ==> base > 0 && covered(secrets, seen, base - 1)
    &&& forall|i: int| base <= i < base + accounted ==> #[trigger] covered(secrets, seen, i)
    &&& forall|secret: Seq<u8>, at: int|
        secrets.contains(secret) && #[trigger] occurs(secret, seen, at) && at < base ==> at
            + secret.len() <= base + accounted
}

/// The output so far is the redaction of what is decided, up to repeated
/// markers, and ends in a marker inside of a covered run.
spec fn in_step(secrets: Set<Seq<u8>>, seen: Seq<u8>, n: int, output: Seq<Piece>) -> bool {
    &&& collapsed(output) == items(secrets, seen, 0, n as nat)
    &&& n > 0 && covered(secrets, seen, n - 1) ==> output.len() > 0 && output.last()
        == Piece::Marker
}

/// An occurrence in the unseen rest of the window is one in the window.
proof fn lemma_window_occurrence(secret: Seq<u8>, seen: Seq<u8>, base: int, at: int)
    requires
        0 <= base <= at,
        base <= seen.len(),
    ensures
        occurs(secret, seen, at) == occurs(secret, seen.skip(base), at - base),
{
    if at + secret.len() <= seen.len() {
        assert(seen.subrange(at, at + secret.len()) =~= seen.skip(base).subrange(
            at - base,
            at - base + secret.len(),
        ));
    }
}

/// Beyond the decided bytes, the window and the count of accounted bytes
/// together tell what is covered.
proof fn lemma_window_coverage(
    secrets: Set<Seq<u8>>,
    longest: nat,
    seen: Seq<u8>,
    base: int,
    accounted: nat,
    i: int,
)
    requires
        position(secrets, longest, seen, base, accounted),
        base <= i < seen.len(),
    ensures
        covered(secrets, seen.skip(base), i - base) ==> covered(secrets, seen, i),
        covered(secrets, seen, i) ==> i < base + accounted || covered(
            secrets,
            seen.skip(base),
            i - base,
        ),
{
    let window = seen.skip(base);
    if covered(secrets, window, i - base) {
        let (secret, at) = choose|secret: Seq<u8>, at: int|
            secrets.contains(secret) && #[trigger] occurs(secret, window, at) && at <= i - base < at
                + secret.len();
        lemma_window_occurrence(secret, seen, base, at + base);
        assert(occurs(secret, seen, at + base));
    }
    if covered(secrets, seen, i) && i >= base + accounted {
        let (secret, at) = choose|secret: Seq<u8>, at: int|
            secrets.contains(secret) && #[trigger] occurs(secret, seen, at) && at <= i < at
                + secret.len();
        assert(at >= base);
        lemma_window_occurrence(secret, seen, base, at);
        assert(occurs(secret, window, at - base));
    }
}

proof fn lemma_collapsed_push(output: Seq<Piece>, piece: Piece)
    ensures
        collapsed(output.push(piece)) == (if output.len() > 0 && output.last() == Piece::Marker
            && piece == Piece::Marker {
            collapsed(output)
        } else {
            collapsed(output).push(piece)
        }),
{
    assert(output.push(piece).drop_last() =~= output);
}

/// Emitting one more position of the window keeps the output in step.
proof fn lemma_emission(
    secrets: Set<Seq<u8>>,
    longest: nat,
    seen: Seq<u8>,
    base: int,
    accounted: nat,
    output: Seq<Piece>,
    n: int,
)
    requires
        position(secrets, longest, seen, base, accounted),
        in_step(secrets, seen, base, output),
        base <= n <= seen.len(),
    ensures
        in_step(
            secrets,
            seen,
            n,
            output + items(secrets, seen.skip(base), accounted, (n - base) as nat),
        ),
    decreases n - base,
{
    let window = seen.skip(base);
    if n == base {
        assert(output + items(secrets, window, accounted, 0) =~= output);
    } else {
        let i = n - 1;
        lemma_emission(secrets, longest, seen, base, accounted, output, i);
        lemma_window_coverage(secrets, longest, seen, base, accounted, i);
        let before = output + items(secrets, window, accounted, (i - base) as nat);
        let added = item(secrets, window, accounted, i - base);
        let after = output + items(secrets, window, accounted, (n - base) as nat);
        assert(after =~= before + added);
        assert(window[i - base] == seen[i]);
        if i > base {
            lemma_window_coverage(secrets, longest, seen, base, accounted, i - 1);
        }
        let global = item(secrets, seen, 0, i);
        let so_far = items(secrets, seen, 0, i as nat);
        assert(items(secrets, seen, 0, n as nat) == so_far + global);
        if i < base + accounted {
            // Represented by an earlier marker: nothing is added on either side.
            assert(added.len() == 0);
            assert(covered(secrets, seen, i));
            if i > base {
                assert(covered(secrets, seen, i - 1));
            }
            assert(global.len() == 0);
            assert(after =~= before);
            assert(so_far + global =~= so_far);
        } else if !covered(secrets, window, i - base) {
            assert(!covered(secrets, seen, i));
            lemma_collapsed_push(before, Piece::Byte(seen[i]));
            assert(after =~= before.push(Piece::Byte(seen[i])));
            assert(so_far + global =~= so_far.push(Piece::Byte(seen[i])));
        } else if i == base || !covered(secrets, window, i - base - 1) {
            lemma_collapsed_push(before, Piece::Marker);
            assert(after =~= before.push(Piece::Marker));
            if i > 0 && covered(secrets, seen, i - 1) {
                assert(global.len() == 0);
                assert(so_far + global =~= so_far);
            } else {
                assert(so_far + global =~= so_far.push(Piece::Marker));
                // The last piece before is no marker, for the byte before is uncovered.
                if before.len() > 0 && before.last() == Piece::Marker {
                    lemma_last_piece(secrets, seen, i);
                    lemma_collapsed_last(before);
                }
            }
        } else {
            assert(covered(secrets, seen, i - 1));
            assert(added.len() == 0);
            assert(global.len() == 0);
            assert(after =~= before);
            assert(so_far + global =~= so_far);
        }
    }
}

/// Merging adjacent markers keeps the last piece.
proof fn lemma_collapsed_last(pieces: Seq<Piece>)
    requires
        pieces.len() > 0,
    ensures
        collapsed(pieces).len() > 0,
        collapsed(pieces).last() == pieces.last(),
    decreases pieces.len(),
{
    if pieces.len() > 1 && pieces.last() == Piece::Marker && pieces[pieces.len() - 2]
        == Piece::Marker {
        lemma_collapsed_last(pieces.drop_last());
    }
}

/// Where no secret covers the byte before, the redaction does not end in a marker.
proof fn lemma_last_piece(secrets: Set<Seq<u8>>, seen: Seq<u8>, n: int)
    requires
        0 <= n <= seen.len(),
        n > 0 ==> !covered(secrets, seen, n - 1),
    ensures
        items(secrets, seen, 0, n as nat).len() > 0 ==> items(secrets, seen, 0, n as nat).last()
            != Piece::Marker,
{
    if n > 0 {
        assert(item(secrets, seen, 0, n - 1) =~= seq![Piece::Byte(seen[n - 1])]);
    }
}

/// More input does not change what is decided.
proof fn lemma_more_input(
    secrets: Set<Seq<u8>>,
    longest: nat,
    seen: Seq<u8>,
    chunk: Seq<u8>,
    base: int,
    accounted: nat,
)
    requires
        bounded(secrets, longest),
        position(secrets, longest, seen, base, accounted),
    ensures
        position(secrets, longest, seen + chunk, base, accounted),
        forall|i: int|
            0 <= i < base ==> #[trigger] covered(secrets, seen + chunk, i) == covered(
                secrets,
                seen,
                i,
            ),
{
    let more = seen + chunk;
    assert forall|secret: Seq<u8>, at: int| #[trigger] occurs(secret, seen, at) implies occurs(
        secret,
        more,
        at,
    ) by {
        assert(more.subrange(at, at + secret.len()) =~= seen.subrange(at, at + secret.len()));
    }
    assert forall|secret: Seq<u8>, at: int|
        secrets.contains(secret) && #[trigger] occurs(secret, more, at) && at < base implies occurs(
        secret,
        seen,
        at,
    ) by {
        assert(at + secret.len() <= seen.len());
        assert(more.subrange(at, at + secret.len()) =~= seen.subrange(at, at + secret.len()));
    }
    assert forall|i: int| #[trigger] covered(secrets, seen, i) implies covered(secrets, more, i) by {
        let (secret, at) = choose|secret: Seq<u8>, at: int|
            secrets.contains(secret) && #[trigger] occurs(secret, seen, at) && at <= i < at
                + secret.len();
        assert(occurs(secret, more, at));
    }
    assert forall|i: int| 0 <= i < base implies #[trigger] covered(secrets, more, i) == covered(
        secrets,
        seen,
        i,
    ) by {
        if covered(secrets, more, i) {
            let (secret, at) = choose|secret: Seq<u8>, at: int|
                secrets.contains(secret) && #[trigger] occurs(secret, more, at) && at <= i < at
                    + secret.len();
            assert(occurs(secret, seen, at));
        }
    }
    assert forall|i: int| base <= i < base + accounted implies #[trigger] covered(secrets, more, i) by {
        assert(covered(secrets, seen, i));
    }
    if accounted > 0 {
        assert(covered(secrets, seen, base - 1));
    }
}

/// Where coverage agrees, so does the redaction.
proof fn lemma_items_agree(secrets: Set<Seq<u8>>, left: Seq<u8>, right: Seq<u8>, n: int)
    requires
        0 <= n <= left.len(),
        n <= right.len(),
        forall|i: int| 0 <= i < n ==> left[i] == right[i],
        forall|i: int|
            0 <= i < n ==> #[trigger] covered(secrets, left, i) == covered(secrets, right, i),
    ensures
        items(secrets, left, 0, n as nat) == items(secrets, right, 0, n as nat),
    decreases n,
{
    if n > 0 {
        lemma_items_agree(secrets, left, right, n - 1);
        assert(covered(secrets, left, n - 1) == covered(secrets, right, n - 1));
        if n > 1 {
            assert(covered(secrets, left, n - 2) == covered(secrets, right, n - 2));
        }
    }
}

proof fn lemma_run_end(secrets: Set<Seq<u8>>, window: Seq<u8>, from: int)
    requires
        0 <= from <= window.len(),
    ensures
        from <= run_end(secrets, window, from) <= window.len(),
        forall|i: int|
            from <= i < run_end(secrets, window, from) ==> #[trigger] covered(secrets, window, i),
        run_end(secrets, window, from) < window.len() ==> !covered(
            secrets,
            window,
            run_end(secrets, window, from),
        ),
    decreases window.len() - from,
{
    if from < window.len() && covered(secrets, window, from) {
        lemma_run_end(secrets, window, from + 1);
    }
}

/// After a chunk the stream stands where its state says.
proof fn lemma_next_position(
    secrets: Set<Seq<u8>>,
    longest: nat,
    seen: Seq<u8>,
    base: int,
    accounted: nat,
)
    requires
        bounded(secrets, longest),
        position(secrets, longest, seen, base, accounted),
    ensures
        ({
            let window = seen.skip(base);
            let next = retained_after(
                secrets,
                longest,
                Retained { pending: window, accounted },
                Seq::empty(),
            );
            &&& next.pending == seen.skip(base + decided(longest, window))
            &&& position(
                secrets,
                longest,
                seen,
                base + decided(longest, window),
                next.accounted,
            )
        }),
{
    let window = seen.skip(base);
    assert(window + Seq::<u8>::empty() =~= window);
    let n = decided(longest, window) as int;
    let next = retained_after(
        secrets,
        longest,
        Retained { pending: window, accounted },
        Seq::empty(),
    );
    assert(window.skip(n) =~= seen.skip(base + n));
    if n > 0 {
        let there = base + n;
        lemma_run_end(secrets, window, n);
        let reach = if covered(secrets, window, n - 1) {
            run_end(secrets, window, n)
        } else {
            n
        };
        assert forall|i: int| there <= i < there + next.accounted implies #[trigger] covered(
            secrets,
            seen,
            i,
        ) by {
            if i < base + accounted {
                assert(covered(secrets, seen, i));
            } else {
                assert(covered(secrets, window, i - base));
                lemma_window_coverage(secrets, longest, seen, base, accounted, i);
            }
        }
        if next.accounted > 0 {
            if reach > n {
                assert(covered(secrets, window, n - 1));
                lemma_window_coverage(secrets, longest, seen, base, accounted, there - 1);
            }
            assert(covered(secrets, seen, there - 1));
        }
        assert forall|secret: Seq<u8>, at: int|
            secrets.contains(secret) && #[trigger] occurs(secret, seen, at) && at < there implies at
            + secret.len() <= there + next.accounted by {
            if at >= base && at + secret.len() > there {
                lemma_window_occurrence(secret, seen, base, at);
                assert(occurs(secret, window, at - base));
                assert forall|i: int| at - base <= i < at - base + secret.len() implies #[trigger] covered(
                    secrets,
                    window,
                    i,
                ) by {
                    assert(occurs(secret, window, at - base));
                }
                assert(covered(secrets, window, n - 1));
                if reach < at - base + secret.len() {
                    assert(covered(secrets, window, reach));
                }
            }
        }
    } else {
        assert(next.accounted == accounted);
    }
}

proof fn lemma_stream(secrets: Set<Seq<u8>>, longest: nat, chunks: Seq<Seq<u8>>)
    requires
        bounded(secrets, longest),
    ensures
        ({
            let seen = joined_chunks(chunks);
            let state = stream_state(secrets, longest, chunks);
            let base = seen.len() - state.pending.len();
            &&& base >= 0
            &&& state.pending == seen.skip(base)
            &&& position(secrets, longest, seen, base, state.accounted)
            &&& in_step(secrets, seen, base, stream_output(secrets, longest, chunks))
        }),
    decreases chunks.len(),
{
    let seen = joined_chunks(chunks);
    let state = stream_state(secrets, longest, chunks);
    if chunks.len() == 0 {
        assert(seen.skip(0) =~= state.pending);
        assert(items(secrets, seen, 0, 0) =~= Seq::<Piece>::empty());
    } else {
        let earlier = chunks.drop_last();
        let chunk = chunks.last();
        lemma_stream(secrets, longest, earlier);
        let before = joined_chunks(earlier);
        let old_state = stream_state(secrets, longest, earlier);
        let old_output = stream_output(secrets, longest, earlier);
        let base = before.len() - old_state.pending.len();
        lemma_more_input(secrets, longest, before, chunk, base, old_state.accounted);
        lemma_items_agree(secrets, before, seen, base);
        if base > 0 {
            assert(covered(secrets, seen, base - 1) == covered(secrets, before, base - 1));
        }
        let window = old_state.pending + chunk;
        assert(window =~= seen.skip(base));
        assert(window + Seq::<u8>::empty() =~= window);
        let n = decided(longest, window) as int;
        lemma_emission(secrets, longest, seen, base, old_state.accounted, old_output, base + n);
        lemma_next_position(secrets, longest, seen, base, old_state.accounted);
    }
}

/// However a stream is cut into chunks, what is emitted is the redaction of the
/// whole stream, up to markers that directly follow a marker.
pub proof fn streaming_agrees_with_stateless_redaction(
    secrets: Set<Seq<u8>>,
    longest: nat,
    chunks: Seq<Seq<u8>>,
)
    requires
        forall|secret: Seq<u8>| #[trigger] secrets.contains(secret) ==> 0 < secret.len() <= longest,
    ensures
        collapsed(streamed(secrets, longest, chunks)) == redaction(secrets, joined_chunks(chunks)),
{
    lemma_stream(secrets, longest, chunks);
    let seen = joined_chunks(chunks);
    let state = stream_state(secrets, longest, chunks);
    let base = seen.len() - state.pending.len();
    lemma_emission(
        secrets,
        longest,
        seen,
        base,
        state.accounted,
        stream_output(secrets, longest, chunks),
        seen.len() as int,
    );
}

proof fn lemma_rendered_concat(left: Seq<Piece>, right: Seq<Piece>)
    ensures
        rendered(left + right) == rendered(left) + rendered(right),
    decreases right.len(),
{
    if right.len() == 0 {
        assert(left + right =~= left);
        assert(rendered(left) + rendered(right) =~= rendered(left));
    } else {
        lemma_rendered_concat(left, right.drop_last());
        assert((left + right).drop_last() =~= left + right.drop_last());
        assert((left + right).last() == right.last());
        assert(rendered(left + right) =~= rendered(left) + rendered(right));
    }
}

/// The bytes of one more chunk join those that were emitted before.
pub proof fn emitted_bytes_join(
    secrets: Set<Seq<u8>>,
    longest: nat,
    chunks: Seq<Seq<u8>>,
    chunk: Seq<u8>,
)
    ensures
        stream_state(secrets, longest, chunks.push(chunk)) == retained_after(
            secrets,
            longest,
            stream_state(secrets, longest, chunks),
            chunk,
        ),
        rendered(stream_output(secrets, longest, chunks.push(chunk))) == rendered(
            stream_output(secrets, longest, chunks),
        ) + rendered(
            emitted(secrets, longest, stream_state(secrets, longest, chunks), chunk),
        ),
{
    assert(chunks.push(chunk).drop_last() =~= chunks);
    lemma_rendered_concat(
        stream_output(secrets, longest, chunks),
        emitted(secrets, longest, stream_state(secrets, longest, chunks), chunk),
    );
}

/// What was emitted before the end of a stream: with `k` the number of bytes that
/// are no longer retained, the output is the redaction of the first `k` bytes up
/// to markers that directly follow a marker. So the uncovered ones among them were
/// emitted, each once and in order, every covered run that starts among them
/// became one or more whole markers, and no covered byte was emitted. What comes
/// later does not change which of these bytes are covered.
pub proof fn output_so_far_is_the_decided_redaction(
    secrets: Set<Seq<u8>>,
    longest: nat,
    chunks: Seq<Seq<u8>>,
    later: Seq<u8>,
)
    requires
        forall|secret: Seq<u8>| #[trigger] secrets.contains(secret) ==> 0 < secret.len() <= longest,
    ensures
        ({
            let seen = joined_chunks(chunks);
            let pending = stream_state(secrets, longest, chunks).pending;
            let k = seen.len() - pending.len();
            &&& 0 <= k
            &&& pending == seen.skip(k)
            &&& pending.len() < longest || pending.len() == 0
            &&& collapsed(stream_output(secrets, longest, chunks)) == items(
                secrets,
                seen,
                0,
                k as nat,
            )
            &&& plain_bytes(stream_output(secrets, longest, chunks)) == uncovered(
                secrets,
                seen,
                k as nat,
            )
            &&& forall|i: int|
                0 <= i < k ==> #[trigger] covered(secrets, seen + later, i) == covered(
                    secrets,
                    seen,
                    i,
                )
        }),
{
    lemma_stream(secrets, longest, chunks);
    let seen = joined_chunks(chunks);
    let state = stream_state(secrets, longest, chunks);
    let k = seen.len() - state.pending.len();
    lemma_more_input(secrets, longest, seen, later, k, state.accounted);
    lemma_plain_collapsed(stream_output(secrets, longest, chunks));
    lemma_plain_items(secrets, seen, k as nat);
    if chunks.len() > 0 {
        assert(state.pending.len() < longest || state.pending.len() == 0);
    }
}

proof fn lemma_nothing_covered(secrets: Set<Seq<u8>>, window: Seq<u8>, n: nat)
    requires
        secrets == Set::<Seq<u8>>::empty(),
        n <= window.len(),
    ensures
        rendered(items(secrets, window, 0, n)) == window.take(n as int),
    decreases n,
{
    if n == 0 {
        assert(window.take(0) =~= Seq::<u8>::empty());
    } else {
        lemma_nothing_covered(secrets, window, (n - 1) as nat);
        let before = items(secrets, window, 0, (n - 1) as nat);
        assert(!covered(secrets, window, n - 1));
        let one = seq![Piece::Byte(window[n - 1])];
        lemma_rendered_concat(before, one);
        assert(rendered(one) =~= seq![window[n - 1]]) by {
            reveal_with_fuel(rendered, 2);
            assert(one.drop_last() =~= Seq::<Piece>::empty());
            assert(one.last() == Piece::Byte(window[n - 1]));
        }
        assert(window.take(n as int) =~= window.take(n - 1) + seq![window[n - 1]]);
    }
}

/// Without secrets every chunk is emitted at once and as it is, and nothing is
/// retained.
pub proof fn chunks_pass_unchanged_without_secrets(chunk: Seq<u8>)
    ensures
        ({
            let start = Retained { pending: Seq::<u8>::empty(), accounted: 0 };
            &&& rendered(emitted(Set::empty(), 0, start, chunk)) == chunk
            &&& retained_after(Set::empty(), 0, start, chunk) == start
        }),
{
    let secrets = Set::<Seq<u8>>::empty();
    let start = Retained { pending: Seq::<u8>::empty(), accounted: 0 };
    let window = start.pending + chunk;
    assert(window =~= chunk);
    lemma_nothing_covered(secrets, window, window.len());
    assert(window.take(window.len() as int) =~= window);
    assert(window.skip(window.len() as int) =~= Seq::<u8>::empty());
    if window.len() > 0 {
        assert(!covered(secrets, window, window.len() - 1));
    }
    assert(retained_after(secrets, 0, start, chunk) =~= start);
}

/// Two neighbouring positions lie in one occurrence of a secret.
pub open spec fn share_an_occurrence(secrets: Set<Seq<u8>>, bytes: Seq<u8>, i: int) -> bool {
    exists|secret: Seq<u8>, at: int|
        secrets.contains(secret) && #[trigger] occurs(secret, bytes, at) && at < i < at
            + secret.len()
}

/// No occurrence of a secret ends where an occurrence of a secret begins, unless
/// a further occurrence joins them.
pub open spec fn separate(secrets: Set<Seq<u8>>, bytes: Seq<u8>) -> bool {
    forall|i: int|
        0 < i < bytes.len() && covered(secrets, bytes, i - 1) && #[trigger] covered(
            secrets,
            bytes,
            i,
        ) ==> share_an_occurrence(secrets, bytes, i)
}

/// Where no two occurrences merely touch, emission repeats no marker.
proof fn lemma_exact_emission(
    secrets: Set<Seq<u8>>,
    longest: nat,
    seen: Seq<u8>,
    base: int,
    accounted: nat,
    n: int,
)
    requires
        position(secrets, longest, seen, base, accounted),
        base <= n <= seen.len(),
        forall|i: int|
            0 < i < n && covered(secrets, seen, i - 1) && #[trigger] covered(secrets, seen, i)
                ==> share_an_occurrence(secrets, seen, i),
    ensures
        items(secrets, seen, 0, base as nat) + items(
            secrets,
            seen.skip(base),
            accounted,
            (n - base) as nat,
        ) == items(secrets, seen, 0, n as nat),
    decreases n - base,
{
    let window = seen.skip(base);
    let head = items(secrets, seen, 0, base as nat);
    if n == base {
        assert(head + items(secrets, window, accounted, 0) =~= head);
    } else {
        let i = n - 1;
        lemma_exact_emission(secrets, longest, seen, base, accounted, i);
        lemma_window_coverage(secrets, longest, seen, base, accounted, i);
        if i > base {
            lemma_window_coverage(secrets, longest, seen, base, accounted, i - 1);
        }
        if i >= base + accounted && i > 0 && covered(secrets, seen, i) && covered(
            secrets,
            seen,
            i - 1,
        ) {
            assert(share_an_occurrence(secrets, seen, i));
            let (secret, at) = choose|secret: Seq<u8>, at: int|
                secrets.contains(secret) && #[trigger] occurs(secret, seen, at) && at < i < at
                    + secret.len();
            assert(at >= base);
            lemma_window_occurrence(secret, seen, base, at);
            assert(occurs(secret, window, at - base));
            assert(covered(secrets, window, i - 1 - base));
        }
        if i < base + accounted && i > base {
            assert(covered(secrets, seen, i - 1));
        }
        assert(item(secrets, window, accounted, i - base) =~= item(secrets, seen, 0, i));
        assert(head + items(secrets, window, accounted, (n - base) as nat) =~= (head + items(
            secrets,
            window,
            accounted,
            (i - base) as nat,
        )) + item(secrets, window, accounted, i - base));
    }
}

/// An occurrence that begins early enough is complete in what was seen so far.
proof fn lemma_early_sharing(
    secrets: Set<Seq<u8>>,
    longest: nat,
    seen: Seq<u8>,
    later: Seq<u8>,
    i: int,
)
    requires
        bounded(secrets, longest),
        separate(secrets, seen + later),
        0 < i < seen.len(),
        i + longest <= seen.len() + 1,
        covered(secrets, seen, i - 1),
        covered(secrets, seen, i),
    ensures
        share_an_occurrence(secrets, seen, i),
{
    let more = seen + later;
    assert forall|j: int| #[trigger] covered(secrets, seen, j) implies covered(secrets, more, j) by {
        let (secret, at) = choose|secret: Seq<u8>, at: int|
            secrets.contains(secret) && #[trigger] occurs(secret, seen, at) && at <= j < at
                + secret.len();
        assert(more.subrange(at, at + secret.len()) =~= seen.subrange(at, at + secret.len()));
        assert(occurs(secret, more, at));
    }
    assert(covered(secrets, more, i - 1));
    assert(covered(secrets, more, i));
    assert(share_an_occurrence(secrets, more, i));
    let (secret, at) = choose|secret: Seq<u8>, at: int|
        secrets.contains(secret) && #[trigger] occurs(secret, more, at) && at < i < at
            + secret.len();
    assert(more.subrange(at, at + secret.len()) =~= seen.subrange(at, at + secret.len()));
    assert(occurs(secret, seen, at));
}

proof fn lemma_exact_stream(
    secrets: Set<Seq<u8>>,
    longest: nat,
    chunks: Seq<Seq<u8>>,
    later: Seq<u8>,
)
    requires
        bounded(secrets, longest),
        separate(secrets, joined_chunks(chunks) + later),
    ensures
        ({
            let seen = joined_chunks(chunks);
            let base = seen.len() - stream_state(secrets, longest, chunks).pending.len();
            stream_output(secrets, longest, chunks) == items(secrets, seen, 0, base as nat)
        }),
    decreases chunks.len(),
{
    lemma_stream(secrets, longest, chunks);
    let seen = joined_chunks(chunks);
    if chunks.len() > 0 {
        let earlier = chunks.drop_last();
        let chunk = chunks.last();
        let before = joined_chunks(earlier);
        assert(before + (chunk + later) =~= seen + later);
        lemma_exact_stream(secrets, longest, earlier, chunk + later);
        lemma_stream(secrets, longest, earlier);
        let old_state = stream_state(secrets, longest, earlier);
        let base = before.len() - old_state.pending.len();
        lemma_more_input(secrets, longest, before, chunk, base, old_state.accounted);
        lemma_items_agree(secrets, before, seen, base);
        let window = old_state.pending + chunk;
        assert(window =~= seen.skip(base));
        let n = base + decided(longest, window);
        if n > base {
            assert forall|i: int|
                0 < i < n && covered(secrets, seen, i - 1) && #[trigger] covered(
                    secrets,
                    seen,
                    i,
                ) implies share_an_occurrence(secrets, seen, i) by {
                lemma_early_sharing(secrets, longest, seen, later, i);
            }
            lemma_exact_emission(secrets, longest, seen, base, old_state.accounted, n);
        } else {
            assert(emitted(secrets, longest, old_state, chunk) =~= Seq::<Piece>::empty());
            assert(stream_output(secrets, longest, chunks) =~= stream_output(
                secrets,
                longest,
                earlier,
            ));
        }
    } else {
        assert(items(secrets, seen, 0, 0) =~= Seq::<Piece>::empty());
    }
}

/// Where no two occurrences of secrets merely touch, a stream is redacted exactly
/// like complete bytes, however it is cut into chunks. A further end of the
/// stream adds nothing.
pub proof fn streaming_is_exact_for_separate_secrets(
    secrets: Set<Seq<u8>>,
    longest: nat,
    chunks: Seq<Seq<u8>>,
)
    requires
        forall|secret: Seq<u8>| #[trigger] secrets.contains(secret) ==> 0 < secret.len() <= longest,
        separate(secrets, joined_chunks(chunks)),
    ensures
        rendered(stream_output(secrets, longest, chunks)) + rendered(
            flushed(secrets, stream_state(secrets, longest, chunks)),
        ) == rendered(redaction(secrets, joined_chunks(chunks))),
        flushed(secrets, (Retained { pending: Seq::empty(), accounted: 0 })) == Seq::<
            Piece,
        >::empty(),
{
    let seen = joined_chunks(chunks);
    assert(seen + Seq::<u8>::empty() =~= seen);
    lemma_exact_stream(secrets, longest, chunks, Seq::empty());
    lemma_stream(secrets, longest, chunks);
    let state = stream_state(secrets, longest, chunks);
    let base = seen.len() - state.pending.len();
    lemma_exact_emission(secrets, longest, seen, base, state.accounted, seen.len() as int);
    lemma_rendered_concat(stream_output(secrets, longest, chunks), flushed(secrets, state));
}

proof fn lemma_plain_collapsed(pieces: Seq<Piece>)
    ensures
        plain_bytes(collapsed(pieces)) == plain_bytes(pieces),
    decreases pieces.len(),
{
    if pieces.len() > 0 {
        lemma_plain_collapsed(pieces.drop_last());
        let merged = collapsed(pieces.drop_last());
        assert(merged.push(pieces.last()).drop_last() =~= merged);
    }
}

/// Redaction keeps exactly the bytes that no secret covers, in their order.
pub proof fn redaction_keeps_exactly_the_uncovered_bytes(secrets: Set<Seq<u8>>, bytes: Seq<u8>)
    ensures
        plain_bytes(redaction(secrets, bytes)) == uncovered(secrets, bytes, bytes.len()),
{
    lemma_plain_items(secrets, bytes, bytes.len());
}

proof fn lemma_plain_items(secrets: Set<Seq<u8>>, bytes: Seq<u8>, n: nat)
    requires
        n <= bytes.len(),
    ensures
        plain_bytes(items(secrets, bytes, 0, n)) == uncovered(secrets, bytes, n),
    decreases n,
{
    if n > 0 {
        lemma_plain_items(secrets, bytes, (n - 1) as nat);
        let before = items(secrets, bytes, 0, (n - 1) as nat);
        let added = item(secrets, bytes, 0, n - 1);
        if added.len() > 0 {
            assert((before + added).drop_last() =~= before);
        } else {
            assert(before + added =~= before);
        }
    }
}

/// However a stream is cut into chunks, exactly the bytes that no secret of the
/// whole stream covers are emitted, each once and in their order.
pub proof fn streaming_emits_exactly_the_uncovered_bytes(
    secrets: Set<Seq<u8>>,
    longest: nat,
    chunks: Seq<Seq<u8>>,
)
    requires
        forall|secret: Seq<u8>| #[trigger] secrets.contains(secret) ==> 0 < secret.len() <= longest,
    ensures
        plain_bytes(streamed(secrets, longest, chunks)) == uncovered(
            secrets,
            joined_chunks(chunks),
            joined_chunks(chunks).len(),
        ),
{
    streaming_agrees_with_stateless_redaction(secrets, longest, chunks);
    lemma_plain_collapsed(streamed(secrets, longest, chunks));
    redaction_keeps_exactly_the_uncovered_bytes(secrets, joined_chunks(chunks));
}


proof fn lemma_exact_flush(
    secrets: Set<Seq<u8>>,
    longest: nat,
    bytes: Seq<u8>,
    base: int,
    accounted: nat,
    n: int,
)
    requires
        position(secrets, longest, bytes, base, accounted),
        base <= n <= bytes.len(),
        base > 0 && covered(secrets, bytes, base - 1) && base + accounted < bytes.len()
            ==> !covered(secrets, bytes, base + accounted),
    ensures
        items(secrets, bytes, 0, base as nat) + items(
            secrets,
            bytes.skip(base),
            accounted,
            (n - base) as nat,
        ) == items(secrets, bytes, 0, n as nat),
    decreases n - base,
{
    let window = bytes.skip(base);
    let head = items(secrets, bytes, 0, base as nat);
    if n == base {
        assert(head + items(secrets, window, accounted, 0) =~= head);
    } else {
        let i = n - 1;
        lemma_exact_flush(secrets, longest, bytes, base, accounted, i);
        lemma_window_coverage(secrets, longest, bytes, base, accounted, i);
        if i > base {
            lemma_window_coverage(secrets, longest, bytes, base, accounted, i - 1);
        }
        assert(item(secrets, window, accounted, i - base) =~= item(secrets, bytes, 0, i));
        assert(head + items(secrets, window, accounted, (n - base) as nat) =~= (head + items(
            secrets,
            window,
            accounted,
            (i - base) as nat,
        )) + item(secrets, window, accounted, i - base));
    }
}

/// A stream that arrives in one chunk is redacted exactly like complete bytes.
pub proof fn one_chunk_is_redacted_like_complete_bytes(
    secrets: Set<Seq<u8>>,
    longest: nat,
    bytes: Seq<u8>,
)
    requires
        forall|secret: Seq<u8>| #[trigger] secrets.contains(secret) ==> 0 < secret.len() <= longest,
    ensures
        streamed(secrets, longest, seq![bytes]) == redaction(secrets, bytes),
{
    let chunks = seq![bytes];
    let start = Retained { pending: Seq::<u8>::empty(), accounted: 0 };
    assert(chunks.drop_last() =~= Seq::<Seq<u8>>::empty());
    assert(stream_state(secrets, longest, chunks.drop_last()) == start);
    assert(stream_output(secrets, longest, chunks.drop_last()) =~= Seq::<Piece>::empty());
    let window = start.pending + bytes;
    assert(window =~= bytes);
    assert(bytes.skip(0) =~= bytes);
    assert(bytes + Seq::<u8>::empty() =~= bytes);
    let n = decided(longest, bytes) as int;
    assert(position(secrets, longest, bytes, 0, 0));
    lemma_next_position(secrets, longest, bytes, 0, 0);
    let state = stream_state(secrets, longest, chunks);
    assert(state == retained_after(secrets, longest, start, bytes));
    assert(state.pending =~= bytes.skip(n));
    if n > 0 && covered(secrets, bytes, n - 1) {
        lemma_run_end(secrets, bytes, n);
    }
    lemma_exact_flush(secrets, longest, bytes, n, state.accounted, bytes.len() as int);
    assert(stream_output(secrets, longest, chunks) =~= items(secrets, bytes, 0, n as nat));
}


impl SecretSet {
    /// Registers every secret of another set.
    pub fn extend(&mut self, other: &SecretSet)
        requires
            old(self).wf(),
            other.wf(),
        ensures
            final(self).wf(),
            final(self)@ == old(self)@.union(other@),
            final(self).count() == old(self)@.union(other@).len(),
            final(self).longest() == (if other.longest() > old(self).longest() {
                other.longest()
            } else {
                old(self).longest()
            }),
    {
        let ghost before = *self;
        let mut index: usize = 0;
        while index < other.values.len()
            invariant
                index <= other.values.len(),
                self.wf(),
                before.wf(),
                other.wf(),
                forall|secret: Seq<u8>| #[trigger]
                    self@.contains(secret) <==> before@.contains(secret) || exists|i: int|
                        0 <= i < index && (#[trigger] other.values@[i])@ == secret,
            decreases other.values.len() - index,
        {
            let value = other.values[index].as_slice();
            assert(other@.contains(other.values@[index as int]@));
            let ghost earlier = self@;
            let _ = self.insert(value);
            proof {
                assert forall|secret: Seq<u8>| #[trigger] self@.contains(secret)
                    <==> before@.contains(secret) || exists|i: int|
                    0 <= i < index + 1 && (#[trigger] other.values@[i])@ == secret by {
                    if earlier.contains(secret) && !before@.contains(secret) {
                        let i = choose|i: int|
                            0 <= i < index && (#[trigger] other.values@[i])@ == secret;
                        assert(other.values@[i]@ == secret);
                    }
                    if secret == value@ {
                        assert(other.values@[index as int]@ == secret);
                    }
                    if exists|i: int|
                        0 <= i < index + 1 && (#[trigger] other.values@[i])@ == secret {
                        let i = choose|i: int|
                            0 <= i < index + 1 && (#[trigger] other.values@[i])@ == secret;
                        if i < index {
                            assert(earlier.contains(secret));
                        }
                    }
                }
            }
            index += 1;
        }
        proof {
            assert(self@ =~= before@.union(other@));
            self.lemma_recorded();
            lemma_longest_of_union(before@, before.longest(), other@, other.longest(), self.longest());
        }
    }
}

/// The longest secret of two sets is the longer one of their longest secrets.
proof fn lemma_longest_of_union(
    left: Set<Seq<u8>>,
    left_longest: nat,
    right: Set<Seq<u8>>,
    right_longest: nat,
    longest: nat,
)
    requires
        longest_secret(left, left_longest),
        longest_secret(right, right_longest),
        longest_secret(left.union(right), longest),
    ensures
        longest == (if right_longest > left_longest {
            right_longest
        } else {
            left_longest
        }),
{
    if left_longest > 0 {
        let secret = choose|secret: Seq<u8>| #[trigger]
            left.contains(secret) && secret.len() == left_longest;
        assert(left.union(right).contains(secret));
    }
    if right_longest > 0 {
        let secret = choose|secret: Seq<u8>| #[trigger]
            right.contains(secret) && secret.len() == right_longest;
        assert(left.union(right).contains(secret));
    }
    if longest > 0 {
        let secret = choose|secret: Seq<u8>| #[trigger]
            left.union(right).contains(secret) && secret.len() == longest;
        assert(left.contains(secret) || right.contains(secret));
    }
}

/// A text after redaction.
pub open spec fn redacted_text(secrets: Set<Seq<u8>>, source: Seq<char>) -> Seq<char> {
    lossy_text(rendered(redaction(secrets, vstd::utf8::encode_utf8(source))))
}

/// An error in which no user-visible field shows a secret. Details that were
/// redacted before stay as they are.
pub open spec fn redacted_failure(
    secrets: Set<Seq<u8>>,
    failure: error::ErrorContent,
) -> error::ErrorContent {
    error::ErrorContent {
        message: redacted_text(secrets, failure.message),
        details: match failure.details {
            Some(details) => if failure.details_redacted {
                Some(details)
            } else {
                Some(redacted_text(secrets, details))
            },
            None => None,
        },
        suggestion: match failure.suggestion {
            Some(suggestion) => Some(redacted_text(secrets, suggestion)),
            None => None,
        },
        details_redacted: true,
        ..failure
    }
}

/// One character of a server name in a diagnostic prefix. Control codes and the
/// characters that delimit prefixes and escapes are written as escapes.
pub open spec fn safe_character(c: char) -> Seq<char> {
    if text::is_control(c) || c == '[' || c == ']' || c == '\\' {
        "\\u{"@ + text::hexadecimal((c as u32) as nat) + "}"@
    } else {
        seq![c]
    }
}

/// A server name made safe for a diagnostic prefix.
pub open spec fn safe_server_name(server: Seq<char>) -> Seq<char>
    decreases server.len(),
{
    if server.len() == 0 {
        Seq::empty()
    } else {
        safe_server_name(server.drop_last()) + safe_character(server.last())
    }
}

fn sanitize_server_name(server: &str) -> (r: String)
    ensures
        r@ == safe_server_name(server@),
{
    let characters = chars_of(server);
    let mut safe = String::new();
    let mut index: usize = 0;
    while index < characters.len()
        invariant
            characters@ == server@,
            index <= characters.len(),
            safe@ == safe_server_name(server@.take(index as int)),
        decreases characters.len() - index,
    {
        let c = characters[index];
        assert(server@.take(index + 1).drop_last() =~= server@.take(index as int));
        let ghost before = safe@;
        if control_character(c) || c == '[' || c == ']' || c == '\\' {
            safe.append("\\u{");
            safe.append(hexadecimal_text(c as u32).as_str());
            safe.append("}");
            assert(safe@ =~= before + safe_character(c));
        } else {
            safe.push(c);
            assert(safe@ =~= before + seq![c]);
        }
        index += 1;
    }
    assert(server@.take(index as int) =~= server@);
    safe
}

/// A line without one carriage return at its end.
pub open spec fn without_return(line: Seq<char>) -> Seq<char> {
    if line.len() > 0 && line.last() == '\r' {
        line.drop_last()
    } else {
        line
    }
}

/// The lines of a diagnostic text. A final line feed ends the last line and
/// starts no further one; an empty text is one empty line.
pub open spec fn diagnostic_lines(source: Seq<char>) -> Seq<Seq<char>> {
    if source.len() > 0 && source.last() == '\n' {
        output::lines_of(source).drop_last()
    } else {
        output::lines_of(source)
    }
}

/// Lines with a prefix in front of each and a line feed behind it.
pub open spec fn prefixed(prefix: Seq<char>, lines: Seq<Seq<char>>) -> Seq<char>
    decreases lines.len(),
{
    if lines.len() == 0 {
        Seq::empty()
    } else {
        prefixed(prefix, lines.drop_last()) + prefix + without_return(lines.last()) + "\n"@
    }
}

fn push_prefixed(target: &mut String, prefix: &str, line: &Vec<char>)
    ensures
        final(target)@ == old(target)@ + prefix@ + without_return(line@) + "\n"@,
{
    target.append(prefix);
    if line.len() > 0 && line[line.len() - 1] == '\r' {
        let shorter = vstd::slice::slice_subrange(line.as_slice(), 0, line.len() - 1);
        assert(shorter@ =~= line@.drop_last());
        target.append(string_of(&vstd::slice::slice_to_vec(shorter)).as_str());
    } else {
        target.append(string_of(line).as_str());
    }
    target.append("\n");
}

/// The diagnostic lines of a text with a prefix in front of each.
fn prefix_lines(prefix: &str, source: &str) -> (r: String)
    ensures
        r@ == prefixed(prefix@, diagnostic_lines(source@)),
{
    let characters = chars_of(source);
    let mut result = String::new();
    let mut current: Vec<char> = Vec::new();
    let mut index: usize = 0;
    let ghost mut complete: Seq<Seq<char>> = Seq::empty();
    assert(complete.push(current@) =~= output::lines_of(source@.take(0)));
    while index < characters.len()
        invariant
            characters@ == source@,
            index <= characters.len(),
            complete.push(current@) == output::lines_of(source@.take(index as int)),
            result@ == prefixed(prefix@, complete),
        decreases characters.len() - index,
    {
        let c = characters[index];
        proof {
            assert(source@.take(index + 1).drop_last() =~= source@.take(index as int));
            assert(complete.push(current@).drop_last() =~= complete);
        }
        if c == '\n' {
            push_prefixed(&mut result, prefix, &current);
            proof {
                let grown = complete.push(current@);
                assert(grown.drop_last() =~= complete);
                complete = grown;
            }
            current = Vec::new();
            assert(complete.push(current@) =~= output::lines_of(source@.take(index + 1)));
        } else {
            current.push(c);
        }
        index += 1;
    }
    assert(source@.take(index as int) =~= source@);
    let ended = characters.len() > 0 && characters[characters.len() - 1] == '\n';
    if ended {
        assert(output::lines_of(source@).drop_last() =~= complete);
    } else {
        push_prefixed(&mut result, prefix, &current);
        assert(complete.push(current@).drop_last() =~= complete);
    }
    result
}

/// The content of a diagnostic sink.
#[verifier::ext_equal]
pub struct SinkContent {
    pub written: Seq<u8>,
    pub debug_enabled: bool,
    pub style: StylePolicy,
    pub secrets: Set<Seq<u8>>,
    pub longest: nat,
    /// What the redactor of each server retains.
    pub streams: Map<Seq<char>, Retained>,
}

/// The bytes of a diagnostic message.
pub open spec fn message_bytes(
    sink: SinkContent,
    prefix: Seq<char>,
    ansi: Seq<char>,
    message: Seq<char>,
) -> Seq<u8> {
    vstd::utf8::encode_utf8(
        prefixed(
            output::styled(prefix, ansi, sink.style),
            diagnostic_lines(redacted_text(sink.secrets, " "@ + message)),
        ),
    )
}

/// The bytes of redacted output of a server; without output there are none.
pub open spec fn server_bytes(sink: SinkContent, server: Seq<char>, safe: Seq<u8>) -> Seq<u8> {
    if safe.len() == 0 {
        Seq::empty()
    } else {
        vstd::utf8::encode_utf8(
            prefixed(
                output::styled("[server]"@, ANSI_MAGENTA@, sink.style) + " "@ + safe_server_name(
                    redacted_text(sink.secrets, server),
                ) + ": "@,
                diagnostic_lines(lossy_text(safe)),
            ),
        )
    }
}

impl SinkContent {
    pub open spec fn wrote(self, bytes: Seq<u8>) -> SinkContent {
        SinkContent { written: self.written + bytes, ..self }
    }

    /// What the redactor of a server retains before its next chunk.
    pub open spec fn stream(self, server: Seq<char>) -> Retained {
        if self.streams.dom().contains(server) {
            self.streams[server]
        } else {
            Retained { pending: Seq::empty(), accounted: 0 }
        }
    }

    /// After a warning.
    pub open spec fn warned(self, message: Seq<char>) -> SinkContent {
        self.wrote(message_bytes(self, "[mcp-cli] warning:"@, ANSI_YELLOW@, message))
    }

    /// After a debug message.
    pub open spec fn debugged(self, message: Seq<char>) -> SinkContent {
        if self.debug_enabled {
            self.wrote(message_bytes(self, "[mcp-cli] debug:"@, ANSI_MAGENTA@, message))
        } else {
            self
        }
    }

    /// After a chunk of the error output of a server.
    pub open spec fn received(self, server: Seq<char>, bytes: Seq<u8>) -> SinkContent {
        let state = self.stream(server);
        let safe = rendered(emitted(self.secrets, self.longest, state, bytes));
        SinkContent {
            streams: self.streams.insert(
                server,
                retained_after(self.secrets, self.longest, state, bytes),
            ),
            ..self.wrote(server_bytes(self, server, safe))
        }
    }

    /// After the end of the error output of a server.
    pub open spec fn ended(self, server: Seq<char>) -> SinkContent {
        if self.streams.dom().contains(server) {
            let safe = rendered(flushed(self.secrets, self.streams[server]));
            SinkContent {
                streams: self.streams.remove(server),
                ..self.wrote(server_bytes(self, server, safe))
            }
        } else {
            self
        }
    }
}

/// A stderr-oriented diagnostic sink that collects the bytes to be written.
///
/// The buffer is the sink's only output capability, which structurally keeps
/// diagnostics away from business stdout. Every event is redacted before it is
/// written. Server stderr uses one `StreamingRedactor` per server.
pub struct WriterDiagnosticSink {
    writer: Vec<u8>,
    debug_enabled: bool,
    style: StylePolicy,
    secrets: SecretSet,
    server_redactors: Vec<(String, StreamingRedactor)>,
}

/// The server names and what their redactors retain.
spec fn stream_pairs(redactors: Seq<(String, StreamingRedactor)>) -> Seq<(Seq<char>, Retained)> {
    redactors.map_values(
        |entry: (String, StreamingRedactor)| (entry.0@, entry.1.retained()),
    )
}

impl View for WriterDiagnosticSink {
    type V = SinkContent;

    closed spec fn view(&self) -> SinkContent {
        SinkContent {
            written: self.writer@,
            debug_enabled: self.debug_enabled,
            style: self.style,
            secrets: self.secrets@,
            longest: self.secrets.longest(),
            streams: assoc::as_map(stream_pairs(self.server_redactors@)),
        }
    }
}

impl WriterDiagnosticSink {
    /// Every server has one redactor, which knows the current secrets.
    pub closed spec fn wf(&self) -> bool {
        &&& self.secrets.wf()
        &&& assoc::distinct(stream_pairs(self.server_redactors@))
        &&& forall|i: int|
            0 <= i < self.server_redactors@.len() ==> {
                &&& (#[trigger] self.server_redactors@[i]).1.wf()
                &&& self.server_redactors@[i].1.secrets() == self.secrets@
                &&& self.server_redactors@[i].1.longest() == self.secrets.longest()
            }
    }

    pub fn new(writer: Vec<u8>, debug_enabled: bool, secrets: SecretSet) -> (r: Self)
        requires
            secrets.wf(),
        ensures
            r.wf(),
            r@ == (SinkContent {
                written: writer@,
                debug_enabled,
                style: StylePolicy { is_tty: false, no_color: false },
                secrets: secrets@,
                longest: secrets.longest(),
                streams: Map::empty(),
            }),
    {
        WriterDiagnosticSink::new_styled(writer, debug_enabled, secrets, StylePolicy::plain())
    }

    pub fn new_styled(
        writer: Vec<u8>,
        debug_enabled: bool,
        secrets: SecretSet,
        style: StylePolicy,
    ) -> (r: Self)
        requires
            secrets.wf(),
        ensures
            r.wf(),
            r@ == (SinkContent {
                written: writer@,
                debug_enabled,
                style,
                secrets: secrets@,
                longest: secrets.longest(),
                streams: Map::empty(),
            }),
    {
        let r = WriterDiagnosticSink {
            writer,
            debug_enabled,
            style,
            secrets,
            server_redactors: Vec::new(),
        };
        assert(stream_pairs(r.server_redactors@) =~= Seq::<(Seq<char>, Retained)>::empty());
        r
    }

    /// Adds secrets discovered after configuration parsing but before command
    /// execution. The process dispatcher uses this two-phase setup so
    /// non-strict environment warnings can share the final stderr sink while
    /// stdio/HTTP diagnostics are protected by the fully loaded secret set.
    ///
    /// Registration occurs before transports can emit server stderr. Any stream
    /// state is cleared so no redactor can retain an obsolete secret snapshot.
    pub fn register_secrets(&mut self, secrets: &SecretSet)
        requires
            old(self).wf(),
            secrets.wf(),
        ensures
            final(self).wf(),
            final(self)@ == (SinkContent {
                secrets: old(self)@.secrets.union(secrets@),
                longest: if secrets.longest() > old(self)@.longest {
                    secrets.longest()
                } else {
                    old(self)@.longest
                },
                streams: Map::empty(),
                ..old(self)@
            }),
    {
        self.secrets.extend(secrets);
        self.server_redactors = Vec::new();
        assert(stream_pairs(self.server_redactors@) =~= Seq::<(Seq<char>, Retained)>::empty());
    }

    /// Redacts text with the sink's currently registered secret set. The main
    /// boundary uses this before rendering a typed error exactly once.
    pub fn redact_text(&self, source: &str) -> (r: String)
        ensures
            r@ == redacted_text(self@.secrets, source@),
    {
        self.secrets.redact(source)
    }

    /// Redacts every user-visible field of a typed error while preserving its
    /// stable kind, exit classification, and retained non-rendered source.
    pub fn redact_error(&self, failure: CliError) -> (r: CliError)
        ensures
            r@ == redacted_failure(self@.secrets, failure@),
    {
        let message = self.redact_text(failure.display_text());
        let details = match failure.details_text() {
            Some(details) => if failure.details_are_redacted() {
                Some(details.to_owned())
            } else {
                Some(self.redact_text(details))
            },
            None => None,
        };
        let suggestion = match failure.suggestion_text() {
            Some(suggestion) => Some(self.redact_text(suggestion)),
            None => None,
        };
        failure.with_redacted_texts(message, details, suggestion)
    }

    pub fn into_inner(self) -> (r: Vec<u8>)
        ensures
            r@ == self@.written,
    {
        self.writer
    }

    /// Takes the bytes that have to be written.
    pub fn take_written(&mut self) -> (r: Vec<u8>)
        requires
            old(self).wf(),
        ensures
            final(self).wf(),
            r@ == old(self)@.written,
            final(self)@ == (SinkContent { written: Seq::empty(), ..old(self)@ }),
    {
        let mut bytes: Vec<u8> = Vec::new();
        core::mem::swap(&mut bytes, &mut self.writer);
        bytes
    }

    fn emit_text(&mut self, prefix: &str, ansi: &str, message: &str)
        requires
            old(self).wf(),
        ensures
            final(self).wf(),
            final(self)@ == old(self)@.wrote(
                message_bytes(old(self)@, prefix@, ansi@, message@),
            ),
    {
        let mut source = " ".to_owned();
        source.append(message);
        let redacted = self.secrets.redact(source.as_str());
        let prefix = style_fragment(prefix, ansi, self.style);
        let lines = prefix_lines(prefix.as_str(), redacted.as_str());
        append_bytes(&mut self.writer, lines.as_str().as_bytes());
    }

    fn emit_server_bytes(&mut self, server: &str, bytes: &Vec<u8>)
        requires
            old(self).wf(),
        ensures
            final(self).wf(),
            final(self)@ == old(self)@.wrote(server_bytes(old(self)@, server@, bytes@)),
    {
        if bytes.len() == 0 {
            assert(self@.written + Seq::<u8>::empty() =~= self@.written);
            return;
        }
        let redacted_server = self.secrets.redact(server);
        let safe_server = sanitize_server_name(redacted_server.as_str());
        let mut prefix = style_fragment("[server]", ANSI_MAGENTA, self.style);
        prefix.append(" ");
        prefix.append(safe_server.as_str());
        prefix.append(": ");
        let source = from_utf8_lossy(bytes.as_slice());
        let lines = prefix_lines(prefix.as_str(), source.as_str());
        append_bytes(&mut self.writer, lines.as_str().as_bytes());
    }

    fn redactor_position(&self, server: &str) -> (r: Option<usize>)
        ensures
            match r {
                Some(i) => i < self.server_redactors@.len() && self.server_redactors@[i as int].0@
                    == server@,
                None => forall|i: int|
                    0 <= i < self.server_redactors@.len() ==> (
                    #[trigger] self.server_redactors@[i]).0@ != server@,
            },
    {
        let mut index: usize = 0;
        while index < self.server_redactors.len()
            invariant
                index <= self.server_redactors@.len(),
                forall|i: int|
                    0 <= i < index ==> (#[trigger] self.server_redactors@[i]).0@ != server@,
            decreases self.server_redactors@.len() - index,
        {
            if str_equal(self.server_redactors[index].0.as_str(), server) {
                return Some(index);
            }
            index += 1;
        }
        None
    }

    /// Takes the redactor of a server out of the sink.
    fn take_redactor(&mut self, server: &str) -> (r: Option<StreamingRedactor>)
        requires
            old(self).wf(),
        ensures
            final(self).wf(),
            final(self)@ == (SinkContent {
                streams: old(self)@.streams.remove(server@),
                ..old(self)@
            }),
            r is Some <==> old(self)@.streams.dom().contains(server@),
            r matches Some(redactor) ==> {
                &&& redactor.wf()
                &&& redactor.secrets() == old(self)@.secrets
                &&& redactor.longest() == old(self)@.longest
                &&& redactor.retained() == old(self)@.streams[server@]
            },
    {
        let ghost pairs = stream_pairs(self.server_redactors@);
        proof {
            assoc::lemma_lookup(pairs);
        }
        match self.redactor_position(server) {
            Some(index) => {
                let ghost before = self.server_redactors@;
                proof {
                    assert(pairs[index as int].0 == server@);
                    assoc::lemma_remove(pairs, index as int);
                }
                let entry = self.server_redactors.remove(index);
                proof {
                    assert(stream_pairs(self.server_redactors@) =~= pairs.remove(index as int));
                    assert forall|i: int| 0 <= i < self.server_redactors@.len() implies {
                        &&& (#[trigger] self.server_redactors@[i]).1.wf()
                        &&& self.server_redactors@[i].1.secrets() == self.secrets@
                        &&& self.server_redactors@[i].1.longest() == self.secrets.longest()
                    } by {
                        let k = if i < index { i } else { i + 1 };
                        assert(self.server_redactors@[i] == before[k]);
                    }
                }
                Some(entry.1)
            },
            None => {
                proof {
                    if pairs_contain(pairs, server@) {
                        let i = choose|i: int|
                            0 <= i < pairs.len() && (#[trigger] pairs[i]).0 == server@;
                        assert(self.server_redactors@[i].0@ == server@);
                    }
                    assert(self@.streams.remove(server@) =~= self@.streams);
                }
                None
            },
        }
    }

    /// Puts the redactor of a server back into the sink.
    fn put_redactor(&mut self, server: &str, redactor: StreamingRedactor)
        requires
            old(self).wf(),
            !old(self)@.streams.dom().contains(server@),
            redactor.wf(),
            redactor.secrets() == old(self)@.secrets,
            redactor.longest() == old(self)@.longest,
        ensures
            final(self).wf(),
            final(self)@ == (SinkContent {
                streams: old(self)@.streams.insert(server@, redactor.retained()),
                ..old(self)@
            }),
    {
        let ghost pairs = stream_pairs(self.server_redactors@);
        let ghost retained = redactor.retained();
        proof {
            assoc::lemma_push(pairs, server@, retained);
        }
        self.server_redactors.push((server.to_owned(), redactor));
        assert(stream_pairs(self.server_redactors@) =~= pairs.push((server@, retained)));
    }
}

spec fn pairs_contain(pairs: Seq<(Seq<char>, Retained)>, name: Seq<char>) -> bool {
    exists|i: int| 0 <= i < pairs.len() && (#[trigger] pairs[i]).0 == name
}

impl DiagnosticSink for WriterDiagnosticSink {
    open spec fn ready(&self) -> bool {
        self.wf()
    }

    fn warning(&mut self, message: &str)
        ensures
            final(self)@ == old(self)@.warned(message@),
    {
        self.emit_text("[mcp-cli] warning:", ANSI_YELLOW, message);
    }

    fn debug(&mut self, message: &str)
        ensures
            final(self)@ == old(self)@.debugged(message@),
    {
        if self.debug_enabled {
            self.emit_text("[mcp-cli] debug:", ANSI_MAGENTA, message);
        }
    }

    fn server_stderr(&mut self, server: &str, bytes: &[u8])
        ensures
            final(self)@ == old(self)@.received(server@, bytes@),
    {
        let ghost before = self@;
        let mut redactor = match self.take_redactor(server) {
            Some(redactor) => redactor,
            None => StreamingRedactor::from_secret_set(&self.secrets),
        };
        let safe = redactor.push(bytes);
        self.put_redactor(server, redactor);
        self.emit_server_bytes(server, &safe);
        assert(self@.streams =~= before.received(server@, bytes@).streams);
    }

    fn server_stderr_flush(&mut self, server: &str)
        ensures
            final(self)@ == old(self)@.ended(server@),
    {
        let ghost before = self@;
        match self.take_redactor(server) {
            Some(redactor) => {
                let mut redactor = redactor;
                let safe = redactor.flush();
                self.emit_server_bytes(server, &safe);
            },
            None => {
                assert(self@.streams =~= before.streams);
            },
        }
    }
}

/// The bytes from a position on spell a secret, one after the other.
pub open spec fn spelled_at(secret: Seq<u8>, bytes: Seq<u8>, at: int) -> bool {
    &&& 0 <= at
    &&& at + secret.len() <= bytes.len()
    &&& forall|k: int| 0 <= k < secret.len() ==> bytes[at + k] == #[trigger] secret[k]
}

/// A byte belongs to a stretch that spells a secret.
pub open spec fn spells_a_secret(secrets: Set<Seq<u8>>, bytes: Seq<u8>, i: int) -> bool {
    exists|secret: Seq<u8>, at: int|
        secrets.contains(secret) && #[trigger] spelled_at(secret, bytes, at) && at <= i < at
            + secret.len()
}

proof fn lemma_spelled(secrets: Set<Seq<u8>>, bytes: Seq<u8>, i: int)
    ensures
        spells_a_secret(secrets, bytes, i) <==> covered(secrets, bytes, i),
{
    if covered(secrets, bytes, i) {
        let (secret, at) = choose|secret: Seq<u8>, at: int|
            secrets.contains(secret) && #[trigger] occurs(secret, bytes, at) && at <= i < at
                + secret.len();
        let part = bytes.subrange(at, at + secret.len());
        assert forall|k: int| 0 <= k < secret.len() implies bytes[at + k]
            == #[trigger] secret[k] by {
            assert(part[k] == bytes[at + k]);
        }
        assert(spelled_at(secret, bytes, at));
    }
    if spells_a_secret(secrets, bytes, i) {
        let (secret, at) = choose|secret: Seq<u8>, at: int|
            secrets.contains(secret) && #[trigger] spelled_at(secret, bytes, at) && at <= i < at
                + secret.len();
        assert(bytes.subrange(at, at + secret.len()) =~= secret);
        assert(occurs(secret, bytes, at));
    }
}

/// Around a byte that no secret covers, the parts on its two sides are covered
/// as they are on their own.
proof fn lemma_covered_parts(secrets: Set<Seq<u8>>, bytes: Seq<u8>, gap: int, i: int)
    requires
        0 <= gap < bytes.len(),
        !covered(secrets, bytes, gap),
        0 <= i < bytes.len(),
    ensures
        i < gap ==> covered(secrets, bytes, i) == covered(secrets, bytes.take(gap), i),
        i > gap ==> covered(secrets, bytes, i) == covered(
            secrets,
            bytes.skip(gap + 1),
            i - gap - 1,
        ),
{
    let left = bytes.take(gap);
    let right = bytes.skip(gap + 1);
    if covered(secrets, bytes, i) {
        let (secret, at) = choose|secret: Seq<u8>, at: int|
            secrets.contains(secret) && #[trigger] occurs(secret, bytes, at) && at <= i < at
                + secret.len();
        assert(!(at <= gap < at + secret.len()));
        if i < gap {
            assert(left.subrange(at, at + secret.len()) =~= bytes.subrange(at, at + secret.len()));
            assert(occurs(secret, left, at));
        } else if i > gap {
            assert(right.subrange(at - gap - 1, at - gap - 1 + secret.len()) =~= bytes.subrange(
                at,
                at + secret.len(),
            ));
            assert(occurs(secret, right, at - gap - 1));
        }
    }
    if i < gap && covered(secrets, left, i) {
        let (secret, at) = choose|secret: Seq<u8>, at: int|
            secrets.contains(secret) && #[trigger] occurs(secret, left, at) && at <= i < at
                + secret.len();
        assert(left.subrange(at, at + secret.len()) =~= bytes.subrange(at, at + secret.len()));
        assert(occurs(secret, bytes, at));
    }
    if i > gap && covered(secrets, right, i - gap - 1) {
        let (secret, at) = choose|secret: Seq<u8>, at: int|
            secrets.contains(secret) && #[trigger] occurs(secret, right, at) && at <= i - gap - 1
                < at + secret.len();
        assert(right.subrange(at, at + secret.len()) =~= bytes.subrange(
            at + gap + 1,
            at + gap + 1 + secret.len(),
        ));
        assert(occurs(secret, bytes, at + gap + 1));
    }
}

proof fn lemma_items_before(secrets: Set<Seq<u8>>, bytes: Seq<u8>, gap: int, n: nat)
    requires
        0 <= gap < bytes.len(),
        !covered(secrets, bytes, gap),
        n <= gap,
    ensures
        items(secrets, bytes, 0, n) == items(secrets, bytes.take(gap), 0, n),
    decreases n,
{
    if n > 0 {
        lemma_items_before(secrets, bytes, gap, (n - 1) as nat);
        lemma_covered_parts(secrets, bytes, gap, n - 1);
        if n > 1 {
            lemma_covered_parts(secrets, bytes, gap, n - 2);
        }
    }
}

proof fn lemma_items_behind(secrets: Set<Seq<u8>>, bytes: Seq<u8>, gap: int, n: nat)
    requires
        0 <= gap < bytes.len(),
        !covered(secrets, bytes, gap),
        gap + 1 + n <= bytes.len(),
    ensures
        items(secrets, bytes, 0, (gap + 1 + n) as nat) == items(
            secrets,
            bytes.take(gap),
            0,
            gap as nat,
        ) + seq![Piece::Byte(bytes[gap])] + items(secrets, bytes.skip(gap + 1), 0, n),
    decreases n,
{
    let left = items(secrets, bytes.take(gap), 0, gap as nat) + seq![Piece::Byte(bytes[gap])];
    if n == 0 {
        lemma_items_before(secrets, bytes, gap, gap as nat);
        assert(left + Seq::<Piece>::empty() =~= left);
    } else {
        lemma_items_behind(secrets, bytes, gap, (n - 1) as nat);
        lemma_covered_parts(secrets, bytes, gap, gap + n);
        if n > 1 {
            lemma_covered_parts(secrets, bytes, gap, gap + n - 1);
        }
        let right = bytes.skip(gap + 1);
        let earlier = items(secrets, right, 0, (n - 1) as nat);
        let added = item(secrets, right, 0, n - 1);
        assert(item(secrets, bytes, 0, gap + n) == added);
        assert(left + (earlier + added) =~= left + earlier + added);
    }
}

proof fn lemma_rendered_parts(first: Seq<Piece>, second: Seq<Piece>)
    ensures
        rendered(first + second) == rendered(first) + rendered(second),
    decreases second.len(),
{
    if second.len() == 0 {
        assert(first + second =~= first);
        assert(rendered(first) + Seq::<u8>::empty() =~= rendered(first));
    } else {
        lemma_rendered_parts(first, second.drop_last());
        assert((first + second).drop_last() =~= first + second.drop_last());
        assert((first + second).last() == second.last());
        let shown = match second.last() {
            Piece::Byte(byte) => seq![byte],
            Piece::Marker => marker_bytes(),
        };
        assert(rendered(first) + rendered(second.drop_last()) + shown =~= rendered(first) + (
        rendered(second.drop_last()) + shown));
    }
}

proof fn lemma_all_covered(secrets: Set<Seq<u8>>, bytes: Seq<u8>, n: nat)
    requires
        0 < n <= bytes.len(),
        forall|i: int| 0 <= i < n ==> #[trigger] covered(secrets, bytes, i),
    ensures
        items(secrets, bytes, 0, n) == seq![Piece::Marker],
    decreases n,
{
    if n == 1 {
        reveal_with_fuel(items, 2);
        assert(covered(secrets, bytes, 0));
        assert(items(secrets, bytes, 0, 1) =~= seq![Piece::Marker]);
    } else {
        lemma_all_covered(secrets, bytes, (n - 1) as nat);
        assert(covered(secrets, bytes, n - 1) && covered(secrets, bytes, n - 2));
        assert(items(secrets, bytes, 0, n) =~= seq![Piece::Marker]);
    }
}

/// What redaction does to bytes. A byte that belongs to no secret stays, and
/// what stands on its two sides is redacted on its own. A stretch that consists
/// of nothing but secrets, however they touch or overlap, becomes one marker,
/// however short they are. Together these say what becomes of any bytes.
pub proof fn redaction_hides_secrets_and_nothing_else(secrets: Set<Seq<u8>>, bytes: Seq<u8>, i: int)
    requires
        0 <= i < bytes.len(),
    ensures
        !spells_a_secret(secrets, bytes, i) ==> rendered(redaction(secrets, bytes)) == rendered(
            redaction(secrets, bytes.take(i)),
        ) + seq![bytes[i]] + rendered(redaction(secrets, bytes.skip(i + 1))),
        (forall|k: int|
            0 <= k < bytes.len() ==> #[trigger] spells_a_secret(secrets, bytes, k)) ==> rendered(
            redaction(secrets, bytes),
        ) == vstd::utf8::encode_utf8("[REDACTED]"@),
        rendered(redaction(secrets, Seq::empty())) == Seq::<u8>::empty(),
{
    lemma_spelled(secrets, bytes, i);
    if !covered(secrets, bytes, i) {
        lemma_gap(secrets, bytes, i);
    }
    if forall|k: int| 0 <= k < bytes.len() ==> #[trigger] spells_a_secret(secrets, bytes, k) {
        assert forall|k: int| 0 <= k < bytes.len() implies #[trigger] covered(
            secrets,
            bytes,
            k,
        ) by {
            assert(spells_a_secret(secrets, bytes, k));
            lemma_spelled(secrets, bytes, k);
        }
        lemma_all_covered(secrets, bytes, bytes.len());
        lemma_one_piece(Piece::Marker);
    }
}

proof fn lemma_one_piece(piece: Piece)
    ensures
        rendered(seq![piece]) == (match piece {
            Piece::Byte(byte) => seq![byte],
            Piece::Marker => vstd::utf8::encode_utf8("[REDACTED]"@),
        }),
{
    reveal_with_fuel(rendered, 2);
    assert(seq![piece].drop_last() =~= Seq::<Piece>::empty());
    assert(Seq::<u8>::empty() + marker_bytes() =~= marker_bytes());
    if let Piece::Byte(byte) = piece {
        assert(Seq::<u8>::empty() + seq![byte] =~= seq![byte]);
    }
}

proof fn lemma_gap(secrets: Set<Seq<u8>>, bytes: Seq<u8>, i: int)
    requires
        0 <= i < bytes.len(),
        !covered(secrets, bytes, i),
    ensures
        rendered(redaction(secrets, bytes)) == rendered(redaction(secrets, bytes.take(i)))
            + seq![bytes[i]] + rendered(redaction(secrets, bytes.skip(i + 1))),
{
    let rest = (bytes.len() - i - 1) as nat;
    lemma_items_behind(secrets, bytes, i, rest);
    let left = items(secrets, bytes.take(i), 0, i as nat);
    let right = items(secrets, bytes.skip(i + 1), 0, rest);
    lemma_rendered_parts(left + seq![Piece::Byte(bytes[i])], right);
    lemma_rendered_parts(left, seq![Piece::Byte(bytes[i])]);
    lemma_one_piece(Piece::Byte(bytes[i]));
}

proof fn lemma_harmless(secrets: Set<Seq<u8>>, bytes: Seq<u8>, n: nat)
    requires
        n <= bytes.len(),
        forall|i: int| 0 <= i < bytes.len() ==> !#[trigger] covered(secrets, bytes, i),
    ensures
        rendered(items(secrets, bytes, 0, n)) == bytes.take(n as int),
    decreases n,
{
    if n > 0 {
        lemma_harmless(secrets, bytes, (n - 1) as nat);
        assert(!covered(secrets, bytes, n - 1));
        let earlier = items(secrets, bytes, 0, (n - 1) as nat);
        let all = items(secrets, bytes, 0, n);
        assert(all =~= earlier.push(Piece::Byte(bytes[n - 1])));
        assert(all.drop_last() =~= earlier);
        assert(bytes.take(n as int) =~= bytes.take(n - 1).push(bytes[n - 1]));
    } else {
        assert(bytes.take(0) =~= Seq::<u8>::empty());
    }
}

/// Bytes and texts that spell no secret pass unchanged, and the redaction of
/// bytes is that of the same secrets for every caller.
pub proof fn harmless_input_passes_unchanged(
    secrets: &SecretSet,
    bytes: &[u8],
    shown: Vec<u8>,
    message: &str,
    text: String,
)
    requires
        call_ensures(SecretSet::redact_bytes, (secrets, bytes), shown),
        call_ensures(SecretSet::redact, (secrets, message), text),
    ensures
        (forall|i: int| 0 <= i < bytes@.len() ==> !#[trigger] spells_a_secret(secrets@, bytes@, i))
            ==> shown@ == bytes@,
        shown@ == rendered(redaction(secrets@, bytes@)),
        text@ == lossy_text(rendered(redaction(secrets@, vstd::utf8::encode_utf8(message@)))),
{
    if forall|i: int| 0 <= i < bytes@.len() ==> !#[trigger] spells_a_secret(secrets@, bytes@, i) {
        assert forall|i: int| 0 <= i < bytes@.len() implies !#[trigger] covered(
            secrets@,
            bytes@,
            i,
        ) by {
            assert(!spells_a_secret(secrets@, bytes@, i));
            lemma_spelled(secrets@, bytes@, i);
        }
        lemma_harmless(secrets@, bytes@, bytes@.len());
        assert(bytes@.take(bytes@.len() as int) =~= bytes@);
    }
}

/// A whole secret never survives, whatever stands around it and however many
/// other secrets there are: every one of its bytes is hidden.
pub proof fn every_occurrence_is_hidden(
    secrets: Set<Seq<u8>>,
    before: Seq<u8>,
    secret: Seq<u8>,
    after: Seq<u8>,
    i: int,
)
    requires
        secrets.contains(secret),
        before.len() <= i < before.len() + secret.len(),
    ensures
        spells_a_secret(secrets, before + secret + after, i),
        covered(secrets, before + secret + after, i),
{
    let bytes = before + secret + after;
    let at = before.len() as int;
    assert forall|k: int| 0 <= k < secret.len() implies bytes[at + k] == #[trigger] secret[k] by {}
    assert(spelled_at(secret, bytes, at));
    lemma_spelled(secrets, bytes, i);
}

/// What is reported of a failed command keeps its kind, exit code and retry
/// category, and shows only redacted texts: message and suggestion always, and
/// details unless they were redacted before.
pub proof fn reported_failures_are_redacted(
    sink: &WriterDiagnosticSink,
    failure: CliError,
    reported: CliError,
)
    requires
        call_ensures(WriterDiagnosticSink::redact_error, (sink, failure), reported),
    ensures
        reported@.kind == failure@.kind,
        reported@.exit_code == failure@.exit_code,
        reported@.class == failure@.class,
        reported@.has_source == failure@.has_source,
        reported@.details_redacted,
        reported@.message == lossy_text(
            rendered(redaction(sink@.secrets, vstd::utf8::encode_utf8(failure@.message))),
        ),
        reported@.details is Some <==> failure@.details is Some,
        failure@.details matches Some(details) ==> reported@.details == Some(
            if failure@.details_redacted {
                details
            } else {
                lossy_text(rendered(redaction(sink@.secrets, vstd::utf8::encode_utf8(details))))
            },
        ),
        reported@.suggestion is Some <==> failure@.suggestion is Some,
        failure@.suggestion matches Some(suggestion) ==> reported@.suggestion == Some(
            lossy_text(rendered(redaction(sink@.secrets, vstd::utf8::encode_utf8(suggestion)))),
        ),
{
}

/// A name in front of server output holds no control code and no character that
/// could end or fake a prefix; other characters stay, in their order, and the
/// others are written as escapes with their code.
pub proof fn server_names_are_escaped(first: Seq<char>, second: Seq<char>, c: char)
    ensures
        safe_server_name(Seq::empty()) == Seq::<char>::empty(),
        safe_server_name(first + second) == safe_server_name(first) + safe_server_name(second),
        c as u32 > 0x1f && !(0x7f <= c as u32 <= 0x9f) && c != '[' && c != ']' && c != '\\'
            ==> safe_server_name(seq![c]) == seq![c],
        c as u32 <= 0x1f || 0x7f <= c as u32 <= 0x9f || c == '[' || c == ']' || c == '\\'
            ==> safe_server_name(seq![c]) == "\\u{"@ + text::hexadecimal((c as u32) as nat)
            + "}"@,
    decreases second.len(),
{
    reveal_with_fuel(safe_server_name, 2);
    assert(seq![c].drop_last() =~= Seq::<char>::empty());
    assert(safe_server_name(seq![c]) =~= safe_character(c));
    if second.len() == 0 {
        assert(first + second =~= first);
        assert(safe_server_name(first) + Seq::<char>::empty() =~= safe_server_name(first));
    } else {
        server_names_are_escaped(first, second.drop_last(), c);
        assert((first + second).drop_last() =~= first + second.drop_last());
        assert(safe_server_name(first) + safe_server_name(second.drop_last()) + safe_character(
            second.last(),
        ) =~= safe_server_name(first) + (safe_server_name(second.drop_last()) + safe_character(
            second.last(),
        )));
    }
}

/// Every line of a diagnostic gets the prefix and a line feed of its own.
pub proof fn every_line_is_prefixed(
    prefix: Seq<char>,
    first: Seq<Seq<char>>,
    second: Seq<Seq<char>>,
    line: Seq<char>,
)
    ensures
        prefixed(prefix, Seq::empty()) == Seq::<char>::empty(),
        prefixed(prefix, first + second) == prefixed(prefix, first) + prefixed(prefix, second),
        (line.len() == 0 || line.last() != '\r') ==> prefixed(prefix, seq![line]) == prefix + line
            + "\n"@,
        prefixed(prefix, seq![line.push('\r')]) == prefix + line + "\n"@,
    decreases second.len(),
{
    reveal_with_fuel(prefixed, 2);
    let ended = line.push('\r');
    assert(seq![line].drop_last() =~= Seq::<Seq<char>>::empty());
    assert(seq![ended].drop_last() =~= Seq::<Seq<char>>::empty());
    assert(ended.drop_last() =~= line);
    assert(prefixed(prefix, seq![line]) =~= prefix + without_return(line) + "\n"@);
    assert(prefixed(prefix, seq![ended]) =~= prefix + line + "\n"@);
    if second.len() == 0 {
        assert(first + second =~= first);
        assert(prefixed(prefix, first) + Seq::<char>::empty() =~= prefixed(prefix, first));
    } else {
        every_line_is_prefixed(prefix, first, second.drop_last(), line);
        assert((first + second).drop_last() =~= first + second.drop_last());
        let last = prefix + without_return(second.last()) + "\n"@;
        assert(prefixed(prefix, first + second) =~= prefixed(
            prefix,
            first + second.drop_last(),
        ) + last);
        assert(prefixed(prefix, second) =~= prefixed(prefix, second.drop_last()) + last);
        assert(prefixed(prefix, first) + prefixed(prefix, second.drop_last()) + last =~= prefixed(
            prefix,
            first,
        ) + (prefixed(prefix, second.drop_last()) + last));
    }
}

/// Diagnostics only ever add to what was written. A warning always does, a debug
/// message only where debugging is on, and neither touches what is retained of
/// server output.
pub proof fn diagnostics_only_add(sink: SinkContent, message: Seq<char>)
    ensures
        sink.warned(message).written == sink.written + message_bytes(
            sink,
            "[mcp-cli] warning:"@,
            "\x1b[33m"@,
            message,
        ),
        sink.warned(message).streams == sink.streams,
        sink.warned(message).secrets == sink.secrets,
        !sink.debug_enabled ==> sink.debugged(message) == sink,
        sink.debug_enabled ==> sink.debugged(message).written == sink.written + message_bytes(
            sink,
            "[mcp-cli] debug:"@,
            "\x1b[35m"@,
            message,
        ),
        sink.debugged(message).streams == sink.streams,
        sink.debugged(message).secrets == sink.secrets,
        !sink.style.is_tty || sink.style.no_color ==> message_bytes(
            sink,
            "[mcp-cli] warning:"@,
            "\x1b[33m"@,
            message,
        ) == vstd::utf8::encode_utf8(
            prefixed(
                "[mcp-cli] warning:"@,
                diagnostic_lines(
                    lossy_text(
                        rendered(
                            redaction(sink.secrets, vstd::utf8::encode_utf8(" "@ + message)),
                        ),
                    ),
                ),
            ),
        ),
{
}

/// The output of one server is kept apart from that of every other: a chunk
/// shows what becomes safe to show with it, retains the rest for the server
/// alone, and the end of the output shows what was retained.
pub proof fn server_output_is_kept_apart(
    sink: SinkContent,
    server: Seq<char>,
    other: Seq<char>,
    bytes: Seq<u8>,
)
    requires
        other != server,
    ensures
        sink.received(server, bytes).stream(other) == sink.stream(other),
        sink.ended(server).stream(other) == sink.stream(other),
        sink.received(server, bytes).stream(server) == retained_after(
            sink.secrets,
            sink.longest,
            sink.stream(server),
            bytes,
        ),
        sink.ended(server).stream(server) == (Retained { pending: Seq::empty(), accounted: 0 }),
        sink.received(server, bytes).secrets == sink.secrets,
        sink.ended(server).secrets == sink.secrets,
        sink.received(server, bytes).written == sink.written + server_bytes(
            sink,
            server,
            rendered(emitted(sink.secrets, sink.longest, sink.stream(server), bytes)),
        ),
        sink.streams.dom().contains(server) ==> sink.ended(server).written == sink.written
            + server_bytes(sink, server, rendered(flushed(sink.secrets, sink.stream(server)))),
        !sink.streams.dom().contains(server) ==> sink.ended(server) == sink,
        server_bytes(sink, server, Seq::empty()) == Seq::<u8>::empty(),
        bytes.len() > 0 && (!sink.style.is_tty || sink.style.no_color) ==> server_bytes(
            sink,
            server,
            bytes,
        ) == vstd::utf8::encode_utf8(
            prefixed(
                "[server] "@ + safe_server_name(redacted_text(sink.secrets, server)) + ": "@,
                diagnostic_lines(lossy_text(bytes)),
            ),
        ),
{
    reveal_strlit("[server]");
    reveal_strlit(" ");
    reveal_strlit("[server] ");
    assert("[server]"@ + " "@ =~= "[server] "@);
}

/// A diagnostic falls into its lines at the line feeds; a final one starts no
/// further line.
pub proof fn diagnostics_fall_into_lines(line: Seq<char>, rest: Seq<char>)
    requires
        forall|i: int| 0 <= i < line.len() ==> #[trigger] line[i] != '\n',
    ensures
        diagnostic_lines(line) == seq![line],
        diagnostic_lines(line.push('\n')) == seq![line],
        rest.len() > 0 ==> diagnostic_lines(line.push('\n') + rest) == seq![line]
            + diagnostic_lines(rest),
{
    output::line_feeds_part_the_lines(line, Seq::empty());
    output::line_feeds_part_the_lines(line, rest);
    let ended = line.push('\n');
    assert(ended + Seq::<char>::empty() =~= ended);
    assert(output::lines_of(Seq::<char>::empty()) =~= seq![Seq::<char>::empty()]);
    assert(output::lines_of(ended).drop_last() =~= seq![line]);
    if line.len() > 0 {
        assert(line[line.len() - 1] != '\n');
    }
    if rest.len() > 0 {
        let whole = ended + rest;
        assert(whole.last() == rest.last());
        if rest.last() == '\n' {
            assert(output::lines_of(rest).len() > 0) by {
                reveal_with_fuel(output::lines_of, 2);
            }
            assert(output::lines_of(whole).drop_last() =~= seq![line] + output::lines_of(
                rest,
            ).drop_last());
        }
    }
}

} // verus!
