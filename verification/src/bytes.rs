//! Splitting and reading raw bytes.

use vstd::prelude::*;

use crate::text::bytes_equal;

verus! {

/// What ends one piece of a byte string and starts the next.
#[derive(Clone, Copy, Debug, PartialEq, Eq, Structural)]
pub enum Separator {
    /// One byte value.
    Byte(u8),
    /// Space, tab, line feed, form feed, or carriage return.
    Whitespace,
}

pub open spec fn separates(separator: Separator, byte: u8) -> bool {
    match separator {
        Separator::Byte(value) => byte == value,
        Separator::Whitespace => byte == 32 || byte == 9 || byte == 10 || byte == 12 || byte == 13,
    }
}

/// The pieces between separators; there is always at least one.
pub open spec fn split(bytes: Seq<u8>, separator: Separator) -> Seq<Seq<u8>>
    decreases bytes.len(),
{
    if bytes.len() == 0 {
        seq![Seq::empty()]
    } else {
        let before = split(bytes.drop_last(), separator);
        if separates(separator, bytes.last()) {
            before.push(Seq::empty())
        } else {
            before.drop_last().push(before.last().push(bytes.last()))
        }
    }
}

/// The contents of a list of byte strings.
pub open spec fn pieces(list: Seq<Vec<u8>>) -> Seq<Seq<u8>> {
    list.map_values(|piece: Vec<u8>| piece@)
}

/// The pieces that hold at least one byte.
pub open spec fn filled(list: Seq<Seq<u8>>) -> Seq<Seq<u8>> {
    list.filter(|piece: Seq<u8>| piece.len() > 0)
}

impl Separator {
    pub fn separates(self, byte: u8) -> (r: bool)
        ensures
            r == separates(self, byte),
    {
        match self {
            Separator::Byte(value) => byte == value,
            Separator::Whitespace => byte == 32 || byte == 9 || byte == 10 || byte == 12 || byte
                == 13,
        }
    }
}

/// Splits bytes at every separator.
pub fn split_bytes(bytes: &[u8], separator: Separator) -> (r: Vec<Vec<u8>>)
    ensures
        pieces(r@) == split(bytes@, separator),
        r@.len() >= 1,
{
    let mut complete: Vec<Vec<u8>> = Vec::new();
    let mut current: Vec<u8> = Vec::new();
    let mut index: usize = 0;
    assert(pieces(complete@).push(current@) =~= split(bytes@.take(0), separator));
    while index < bytes.len()
        invariant
            index <= bytes.len(),
            pieces(complete@).push(current@) == split(bytes@.take(index as int), separator),
        decreases bytes.len() - index,
    {
        let byte = bytes[index];
        let ghost before = pieces(complete@);
        let ghost piece = current@;
        assert(bytes@.take(index + 1).drop_last() =~= bytes@.take(index as int));
        if separator.separates(byte) {
            complete.push(current);
            current = Vec::new();
            assert(pieces(complete@) =~= before.push(piece));
            assert(current@ =~= Seq::<u8>::empty());
        } else {
            current.push(byte);
            assert(before.push(piece).drop_last() =~= before);
        }
        index += 1;
    }
    assert(bytes@.take(index as int) =~= bytes@);
    let ghost before = pieces(complete@);
    let ghost piece = current@;
    complete.push(current);
    assert(pieces(complete@) =~= before.push(piece));
    complete
}

/// Drops the pieces without a byte.
pub fn filled_pieces(list: Vec<Vec<u8>>) -> (r: Vec<Vec<u8>>)
    ensures
        pieces(r@) == filled(pieces(list@)),
{
    let ghost all = pieces(list@);
    let mut kept: Vec<Vec<u8>> = Vec::new();
    proof {
        reveal(Seq::filter);
    }
    assert(pieces(kept@) =~= filled(all.take(0)));
    for piece in it: list
        invariant
            all == pieces(it.seq()),
            pieces(kept@) == filled(all.take(it.index() as int)),
    {
        let ghost index = it.index() as int;
        let ghost content = piece@;
        let ghost before = pieces(kept@);
        proof {
            reveal(Seq::filter);
            assert(all.take(index + 1).drop_last() =~= all.take(index));
            assert(all.take(index + 1).last() == content);
        }
        if piece.len() > 0 {
            kept.push(piece);
            assert(pieces(kept@) =~= before.push(content));
        }
    }
    assert(all.take(all.len() as int) =~= all);
    kept
}

/// The pieces between runs of ASCII white space.
pub open spec fn words(bytes: Seq<u8>) -> Seq<Seq<u8>> {
    filled(split(bytes, Separator::Whitespace))
}

pub fn words_of(bytes: &[u8]) -> (r: Vec<Vec<u8>>)
    ensures
        pieces(r@) == words(bytes@),
{
    filled_pieces(split_bytes(bytes, Separator::Whitespace))
}

pub open spec fn is_decimal_digit(byte: u8) -> bool {
    48 <= byte <= 57
}

/// The number that decimal digits stand for.
pub open spec fn digits_value(digits: Seq<u8>) -> nat
    decreases digits.len(),
{
    if digits.len() == 0 {
        0
    } else {
        digits_value(digits.drop_last()) * 10 + (digits.last() - 48) as nat
    }
}

/// A numeral without the plus sign that may stand before it.
pub open spec fn unsigned_digits(bytes: Seq<u8>) -> Seq<u8> {
    if bytes.len() > 0 && bytes[0] == 43 {
        bytes.skip(1)
    } else {
        bytes
    }
}

/// The number that an unsigned numeral stands for, if it is at most `most`: an
/// optional plus sign, and then one decimal digit or more.
pub open spec fn unsigned(bytes: Seq<u8>, most: nat) -> Option<nat> {
    let digits = unsigned_digits(bytes);
    if digits.len() > 0 && (forall|i: int|
        0 <= i < digits.len() ==> is_decimal_digit(#[trigger] digits[i])) && digits_value(digits)
        <= most {
        Some(digits_value(digits))
    } else {
        None
    }
}

proof fn lemma_digits_value_grows(digits: Seq<u8>, length: int)
    requires
        0 <= length <= digits.len(),
    ensures
        digits_value(digits.take(length)) <= digits_value(digits),
    decreases digits.len() - length,
{
    if length == digits.len() {
        assert(digits.take(length) =~= digits);
    } else {
        lemma_digits_value_grows(digits, length + 1);
        assert(digits.take(length + 1).drop_last() =~= digits.take(length));
    }
}

/// Reads an unsigned numeral that is at most `most`.
pub fn parse_unsigned(bytes: &[u8], most: u64) -> (r: Option<u64>)
    ensures
        r is Some <==> unsigned(bytes@, most as nat) is Some,
        r matches Some(value) ==> unsigned(bytes@, most as nat) == Some(value as nat),
{
    let start: usize = if bytes.len() > 0 && bytes[0] == 43 {
        1
    } else {
        0
    };
    let ghost digits = unsigned_digits(bytes@);
    assert(digits =~= bytes@.skip(start as int));
    if bytes.len() == start {
        return None;
    }
    let mut scan: usize = start;
    while scan < bytes.len()
        invariant
            start <= scan <= bytes.len(),
            digits == bytes@.skip(start as int),
            digits == unsigned_digits(bytes@),
            forall|i: int| 0 <= i < scan - start ==> is_decimal_digit(#[trigger] digits[i]),
        decreases bytes.len() - scan,
    {
        let byte = bytes[scan];
        assert(digits[scan - start] == byte);
        if byte < 48 || 57 < byte {
            assert(!is_decimal_digit(digits[scan - start]));
            return None;
        }
        scan += 1;
    }
    let mut value: u64 = 0;
    let mut index: usize = start;
    while index < bytes.len()
        invariant
            start <= index <= bytes.len(),
            digits == bytes@.skip(start as int),
            digits == unsigned_digits(bytes@),
            forall|i: int| 0 <= i < digits.len() ==> is_decimal_digit(#[trigger] digits[i]),
            value == digits_value(digits.take(index - start)),
            value <= most,
        decreases bytes.len() - index,
    {
        let ghost at = index - start;
        assert(is_decimal_digit(digits[at]));
        assert(digits[at] == bytes@[index as int]);
        assert(digits.take(at + 1).drop_last() =~= digits.take(at));
        proof {
            lemma_digits_value_grows(digits, at + 1);
        }
        let next: u128 = value as u128 * 10 + (bytes[index] - 48) as u128;
        if next > most as u128 {
            return None;
        }
        value = next as u64;
        index += 1;
    }
    assert(digits.take(digits.len() as int) =~= digits);
    Some(value)
}

/// Whether the bytes begin with the given ones.
pub open spec fn begins_with(bytes: Seq<u8>, prefix: Seq<u8>) -> bool {
    prefix.len() <= bytes.len() && bytes.take(prefix.len() as int) == prefix
}

pub fn has_prefix(bytes: &[u8], prefix: &[u8]) -> (r: bool)
    ensures
        r == begins_with(bytes@, prefix@),
{
    if prefix.len() > bytes.len() {
        return false;
    }
    let start = vstd::slice::slice_subrange(bytes, 0, prefix.len());
    assert(start@ =~= bytes@.take(prefix@.len() as int));
    bytes_equal(start, prefix)
}

/// The lines of a text. A line feed, or a carriage return and a line feed, ends
/// a line; text behind the last line feed is a line as it stands, unless it is
/// empty.
pub open spec fn lines(bytes: Seq<u8>) -> Seq<Seq<u8>> {
    let parts = split(bytes, Separator::Byte(10));
    let ended = Seq::new(
        (parts.len() - 1) as nat,
        |i: int|
            if parts[i].len() > 0 && parts[i].last() == 13 {
                parts[i].drop_last()
            } else {
                parts[i]
            },
    );
    if parts.last().len() == 0 {
        ended
    } else {
        ended.push(parts.last())
    }
}

pub fn lines_of(bytes: &[u8]) -> (r: Vec<Vec<u8>>)
    ensures
        pieces(r@) == lines(bytes@),
{
    let mut parts = split_bytes(bytes, Separator::Byte(10));
    let ghost all = split(bytes@, Separator::Byte(10));
    assert(all.len() == parts@.len());
    assert(all.last() == parts@.last()@);
    let last = parts.pop();
    let mut found: Vec<Vec<u8>> = Vec::new();
    let mut index: usize = 0;
    let ghost ended = Seq::new(
        (all.len() - 1) as nat,
        |i: int|
            if all[i].len() > 0 && all[i].last() == 13 {
                all[i].drop_last()
            } else {
                all[i]
            },
    );
    assert(pieces(found@) =~= ended.take(0));
    while index < parts.len()
        invariant
            index <= parts.len(),
            parts@.len() == all.len() - 1,
            forall|i: int| 0 <= i < parts@.len() ==> (#[trigger] parts@[i])@ == all[i],
            ended == Seq::new(
                (all.len() - 1) as nat,
                |i: int|
                    if all[i].len() > 0 && all[i].last() == 13 {
                        all[i].drop_last()
                    } else {
                        all[i]
                    },
            ),
            pieces(found@) == ended.take(index as int),
        decreases parts.len() - index,
    {
        let part = &parts[index];
        assert(part@ == all[index as int]);
        let length = part.len();
        let kept: usize = if length > 0 && part[length - 1] == 13 {
            length - 1
        } else {
            length
        };
        let line = vstd::slice::slice_to_vec(
            vstd::slice::slice_subrange(part.as_slice(), 0, kept),
        );
        let ghost before = pieces(found@);
        let ghost content = line@;
        assert(content =~= ended[index as int]);
        found.push(line);
        assert(pieces(found@) =~= before.push(content));
        assert(ended.take(index + 1) =~= ended.take(index as int).push(ended[index as int]));
        index += 1;
    }
    assert(ended.take(index as int) =~= ended);
    match last {
        Some(rest) => {
            if rest.len() > 0 {
                let ghost before = pieces(found@);
                let ghost content = rest@;
                found.push(rest);
                assert(pieces(found@) =~= before.push(content));
            }
        },
        None => {},
    }
    found
}

/// The pieces of two stretches with a separator between them are those of the
/// one followed by those of the other; bytes without a separator are one piece.
pub proof fn separators_part_the_pieces(
    first: Seq<u8>,
    second: Seq<u8>,
    between: u8,
    separator: Separator,
)
    requires
        separates(separator, between),
    ensures
        split(first.push(between) + second, separator) == split(first, separator) + split(
            second,
            separator,
        ),
        (forall|i: int| 0 <= i < first.len() ==> !separates(separator, #[trigger] first[i]))
            ==> split(first, separator) == seq![first],
    decreases first.len() + second.len(),
{
    let whole = first.push(between) + second;
    lemma_split_filled(first, separator);
    if second.len() == 0 {
        assert(whole.drop_last() =~= first);
        assert(whole.last() == between);
        assert(split(second, separator) =~= seq![Seq::<u8>::empty()]);
        assert(split(whole, separator) =~= split(first, separator) + split(second, separator));
    } else {
        separators_part_the_pieces(first, second.drop_last(), between, separator);
        assert(whole.drop_last() =~= first.push(between) + second.drop_last());
        assert(whole.last() == second.last());
        let left = split(first, separator);
        let right = split(second.drop_last(), separator);
        lemma_split_filled(second.drop_last(), separator);
        assert(split(whole.drop_last(), separator) == left + right);
        if separates(separator, second.last()) {
            assert((left + right).push(Seq::empty()) =~= left + right.push(Seq::empty()));
        } else {
            assert((left + right).last() == right.last());
            assert((left + right).drop_last() =~= left + right.drop_last());
            assert((left + right.drop_last()).push(right.last().push(second.last())) =~= left
                + right.drop_last().push(right.last().push(second.last())));
        }
    }
    if forall|i: int| 0 <= i < first.len() ==> !separates(separator, #[trigger] first[i]) {
        lemma_unseparated(first, separator);
    }
}

proof fn lemma_split_filled(bytes: Seq<u8>, separator: Separator)
    ensures
        split(bytes, separator).len() >= 1,
    decreases bytes.len(),
{
    if bytes.len() > 0 {
        lemma_split_filled(bytes.drop_last(), separator);
    }
}

proof fn lemma_unseparated(bytes: Seq<u8>, separator: Separator)
    requires
        forall|i: int| 0 <= i < bytes.len() ==> !separates(separator, #[trigger] bytes[i]),
    ensures
        split(bytes, separator) == seq![bytes],
    decreases bytes.len(),
{
    if bytes.len() > 0 {
        let earlier = bytes.drop_last();
        assert forall|i: int| 0 <= i < earlier.len() implies !separates(
            separator,
            #[trigger] earlier[i],
        ) by {
            assert(earlier[i] == bytes[i]);
        }
        lemma_unseparated(earlier, separator);
        assert(!separates(separator, bytes[bytes.len() - 1]));
        assert(earlier.push(bytes.last()) =~= bytes);
        assert(split(bytes, separator) =~= seq![bytes]);
    } else {
        assert(bytes =~= Seq::<u8>::empty());
        assert(split(bytes, separator) =~= seq![bytes]);
    }
}

/// White space is space, tab, line feed, form feed and carriage return; a byte
/// separates where it is the one that is asked for.
pub proof fn separators_are_what_they_say(byte: u8, value: u8)
    ensures
        separates(Separator::Byte(value), byte) <==> byte == value,
        separates(Separator::Whitespace, byte) <==> byte == 0x20 || byte == 0x09 || byte == 0x0a
            || byte == 0x0c || byte == 0x0d,
{
}

/// Unsigned numerals are read in base ten: the digits of a number stand for it,
/// with or without a plus sign, and everything else is refused, as is what
/// exceeds the limit.
pub proof fn unsigned_numerals_are_read_in_base_ten(bytes: Seq<u8>, next: u8, most: nat)
    ensures
        48 <= next <= 57 && unsigned(bytes, most) is Some ==> unsigned(bytes.push(next), most)
            == (if unsigned(bytes, most)->0 * 10 + (next - 48) <= most {
            Some((unsigned(bytes, most)->0 * 10 + (next - 48)) as nat)
        } else {
            None::<nat>
        }),
        48 <= next <= 57 ==> unsigned(seq![next], most) == (if next - 48 <= most {
            Some((next - 48) as nat)
        } else {
            None::<nat>
        }),
        !(48 <= next <= 57) ==> unsigned(bytes.push(next), most) is None,
        unsigned(Seq::empty(), most) is None,
        bytes.len() > 0 && bytes[0] != 43 ==> unsigned(seq![43u8] + bytes, most) == unsigned(
            bytes,
            most,
        ),
        unsigned(bytes, most) matches Some(value) ==> value <= most,
{
    let longer = bytes.push(next);
    let digits = unsigned_digits(bytes);
    reveal_with_fuel(digits_value, 2);
    assert(seq![next].drop_last() =~= Seq::<u8>::empty());
    if bytes.len() > 0 {
        assert(unsigned_digits(longer) =~= digits.push(next));
        assert(digits.push(next).drop_last() =~= digits);
    }
    if 48 <= next <= 57 {
        assert(unsigned_digits(seq![next]) == seq![next]);
        assert forall|i: int| 0 <= i < 1 implies is_decimal_digit(#[trigger] seq![next][i]) by {}
        if unsigned(bytes, most) is Some {
            assert forall|i: int| 0 <= i < digits.push(next).len() implies is_decimal_digit(
                #[trigger] digits.push(next)[i],
            ) by {
                if i < digits.len() {
                    assert(is_decimal_digit(digits[i]));
                }
            }
        }
    } else {
        let all = unsigned_digits(longer);
        if all.len() > 0 {
            assert(all.last() == next);
            assert(!is_decimal_digit(all[all.len() - 1]));
        }
    }
    if bytes.len() > 0 && bytes[0] != 43 {
        assert((seq![43u8] + bytes).skip(1) =~= bytes);
    }
}

/// The lines of a text are its own, in order: a line feed ends a line, a carriage
/// return before it belongs to the ending, and what follows the last line feed is
/// a line unless it is empty.
pub proof fn line_feeds_end_lines(line: Seq<u8>, rest: Seq<u8>)
    requires
        forall|i: int| 0 <= i < line.len() ==> #[trigger] line[i] != 10,
    ensures
        lines(line.push(10) + rest) == seq![
            if line.len() > 0 && line.last() == 13 {
                line.drop_last()
            } else {
                line
            },
        ] + lines(rest),
        line.len() > 0 ==> lines(line) == seq![line],
        lines(Seq::empty()) == Seq::<Seq<u8>>::empty(),
{
    let separator = Separator::Byte(10);
    assert forall|i: int| 0 <= i < line.len() implies !separates(
        separator,
        #[trigger] line[i],
    ) by {}
    separators_part_the_pieces(line, rest, 10, separator);
    lemma_unseparated(line, separator);
    lemma_unseparated(Seq::empty(), separator);
    lemma_split_filled(rest, separator);
    let parts = split(line.push(10) + rest, separator);
    let behind = split(rest, separator);
    assert(parts =~= seq![line] + behind);
    assert(parts.last() == behind.last());
    assert forall|i: int| 0 <= i < behind.len() implies #[trigger] parts[i + 1] == behind[i] by {}
    assert(lines(line.push(10) + rest) =~= seq![
        if line.len() > 0 && line.last() == 13 {
            line.drop_last()
        } else {
            line
        },
    ] + lines(rest));
    assert(lines(Seq::empty()) =~= Seq::<Seq<u8>>::empty());
    if line.len() > 0 {
        assert(lines(line) =~= seq![line]);
    }
}

/// Bytes begin with others exactly if these come first, one after the other.
pub proof fn prefixes_come_first(prefix: Seq<u8>, rest: Seq<u8>, bytes: Seq<u8>)
    ensures
        begins_with(prefix + rest, prefix),
        begins_with(bytes, prefix) ==> bytes == prefix + bytes.skip(prefix.len() as int),
{
    assert((prefix + rest).take(prefix.len() as int) =~= prefix);
    if begins_with(bytes, prefix) {
        assert(bytes =~= bytes.take(prefix.len() as int) + bytes.skip(prefix.len() as int));
    }
}

/// Words are what stands between blanks: blanks part them, and a run of other
/// bytes is one word.
pub proof fn blanks_part_the_words(first: Seq<u8>, blank: u8, second: Seq<u8>, word: Seq<u8>)
    requires
        blank == 0x20 || blank == 0x09 || blank == 0x0a || blank == 0x0c || blank == 0x0d,
        forall|i: int|
            0 <= i < word.len() ==> #[trigger] word[i] != 0x20 && word[i] != 0x09 && word[i] != 0x0a
                && word[i] != 0x0c && word[i] != 0x0d,
    ensures
        words(first.push(blank) + second) == words(first) + words(second),
        words(word) == if word.len() > 0 {
            seq![word]
        } else {
            Seq::empty()
        },
{
    let separator = Separator::Whitespace;
    separators_part_the_pieces(first, second, blank, separator);
    let left = split(first, separator);
    let right = split(second, separator);
    Seq::filter_distributes_over_add(left, right, |piece: Seq<u8>| piece.len() > 0);
    assert forall|i: int| 0 <= i < word.len() implies !separates(
        separator,
        #[trigger] word[i],
    ) by {}
    separators_part_the_pieces(word, Seq::empty(), blank, separator);
    reveal_with_fuel(Seq::filter, 2);
    assert(seq![word].drop_last() =~= Seq::<Seq<u8>>::empty());
    assert(words(word) =~= if word.len() > 0 {
        seq![word]
    } else {
        Seq::empty()
    });
}

} // verus!
