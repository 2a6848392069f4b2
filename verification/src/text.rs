//! Operations on characters and strings that the other modules share.

use vstd::prelude::*;

verus! {

/// The full lower-case mapping of a scalar value.
pub uninterp spec fn lowercase_of(c: char) -> Seq<char>;

/// The full upper-case mapping of a scalar value.
pub uninterp spec fn uppercase_of(c: char) -> Seq<char>;

/// `char::to_lowercase`: the result is the lower-case mapping of `c` and
/// depends on `c` alone.
#[verifier::external_body]
fn to_lowercase(c: char) -> (r: Vec<char>)
    ensures
        r@ == lowercase_of(c),
{
    c.to_lowercase().collect()
}

/// `char::to_uppercase`: the result is the upper-case mapping of `c` and
/// depends on `c` alone.
#[verifier::external_body]
fn to_uppercase(c: char) -> (r: Vec<char>)
    ensures
        r@ == uppercase_of(c),
{
    c.to_uppercase().collect()
}

/// Two scalar values are the same letter when they are equal, or have equal
/// lower-case mappings, or have equal upper-case mappings.
pub open spec fn same_letter(left: char, right: char) -> bool {
    ||| left == right
    ||| lowercase_of(left) == lowercase_of(right)
    ||| uppercase_of(left) == uppercase_of(right)
}

/// Compares two character sequences element by element.
pub fn chars_equal(left: &Vec<char>, right: &Vec<char>) -> (r: bool)
    ensures
        r == (left@ == right@),
{
    if left.len() != right.len() {
        return false;
    }
    let mut index: usize = 0;
    while index < left.len()
        invariant
            left.len() == right.len(),
            index <= left.len(),
            forall|i: int| 0 <= i < index ==> left@[i] == right@[i],
        decreases left.len() - index,
    {
        if left[index] != right[index] {
            assert(left@[index as int] != right@[index as int]);
            return false;
        }
        index += 1;
    }
    assert(left@ =~= right@);
    true
}

/// Case-insensitive comparison of two scalar values.
pub fn scalar_eq_ignore_case(left: char, right: char) -> (r: bool)
    ensures
        r == same_letter(left, right),
{
    if left == right {
        return true;
    }
    if chars_equal(&to_lowercase(left), &to_lowercase(right)) {
        return true;
    }
    chars_equal(&to_uppercase(left), &to_uppercase(right))
}

/// The scalar values of a string, in order.
pub fn chars_of(s: &str) -> (r: Vec<char>)
    ensures
        r@ == s@,
{
    let mut chars: Vec<char> = Vec::new();
    for c in it: s.chars()
        invariant
            chars@ == it.seq().take(it.index() as int),
            it.seq() == s@,
    {
        chars.push(c);
        assert(it.seq().take(it.index() as int).push(c) =~= it.seq().take(it.index() + 1));
    }
    assert(s@.take(s@.len() as int) =~= s@);
    chars
}

/// Compares two strings.
pub fn str_equal(left: &str, right: &str) -> (r: bool)
    ensures
        r == (left@ == right@),
{
    let left_bytes = left.as_bytes();
    let right_bytes = right.as_bytes();
    let equal = bytes_equal(left_bytes, right_bytes);
    proof {
        vstd::utf8::encode_utf8_decode_utf8(left@);
        vstd::utf8::encode_utf8_decode_utf8(right@);
    }
    equal
}

/// Compares two byte sequences.
pub fn bytes_equal(left: &[u8], right: &[u8]) -> (r: bool)
    ensures
        r == (left@ == right@),
{
    if left.len() != right.len() {
        return false;
    }
    let mut index: usize = 0;
    while index < left.len()
        invariant
            left.len() == right.len(),
            index <= left.len(),
            forall|i: int| 0 <= i < index ==> left@[i] == right@[i],
        decreases left.len() - index,
    {
        if left[index] != right[index] {
            assert(left@[index as int] != right@[index as int]);
            return false;
        }
        index += 1;
    }
    assert(left@ =~= right@);
    true
}

/// `String::push`: appends one scalar value.
pub assume_specification[ std::string::String::push ](s: &mut std::string::String, c: char)
    ensures
        final(s)@ == old(s)@.push(c),
;

/// The string made of the given scalar values.
pub fn string_of(chars: &Vec<char>) -> (r: String)
    ensures
        r@ == chars@,
{
    let mut text = String::new();
    let mut index: usize = 0;
    while index < chars.len()
        invariant
            index <= chars.len(),
            text@ == chars@.take(index as int),
        decreases chars.len() - index,
    {
        text.push(chars[index]);
        assert(chars@.take(index + 1) =~= chars@.take(index as int).push(chars@[index as int]));
        index += 1;
    }
    assert(chars@.take(index as int) =~= chars@);
    text
}

/// A control code: a scalar value of the general category `Cc`.
pub open spec fn is_control(c: char) -> bool {
    c as u32 <= 0x1f || 0x7f <= c as u32 <= 0x9f
}

/// Whether a scalar value is a control code.
pub fn control_character(c: char) -> (r: bool)
    ensures
        r == is_control(c),
{
    let code: u32 = c as u32;
    code <= 0x1f || (0x7f <= code && code <= 0x9f)
}

/// The contents of a sequence of strings.
pub open spec fn texts(strings: Seq<String>) -> Seq<Seq<char>> {
    strings.map_values(|s: String| s@)
}

/// The contents of a sequence of string slices.
pub open spec fn slices(strings: Seq<&str>) -> Seq<Seq<char>> {
    strings.map_values(|s: &str| s@)
}

/// The content of an optional string.
pub open spec fn optional(s: Option<String>) -> Option<Seq<char>> {
    match s {
        Some(text) => Some(text@),
        None => None,
    }
}

/// The parts with the separator between each two of them.
pub open spec fn joined(parts: Seq<Seq<char>>, separator: Seq<char>) -> Seq<char>
    decreases parts.len(),
{
    if parts.len() == 0 {
        Seq::empty()
    } else if parts.len() == 1 {
        parts[0]
    } else {
        joined(parts.drop_last(), separator) + separator + parts.last()
    }
}

/// Joins strings with a separator.
pub fn join(parts: &[String], separator: &str) -> (r: String)
    ensures
        r@ == joined(texts(parts@), separator@),
{
    let mut text = String::new();
    let mut index: usize = 0;
    while index < parts.len()
        invariant
            index <= parts.len(),
            text@ == joined(texts(parts@).take(index as int), separator@),
        decreases parts.len() - index,
    {
        let ghost before = texts(parts@).take(index as int);
        let ghost after = texts(parts@).take(index + 1);
        assert(after.drop_last() =~= before);
        if index > 0 {
            text.append(separator);
        }
        text.append(parts[index].as_str());
        proof {
            if index == 0 {
                assert(text@ =~= parts@[0]@);
            }
        }
        index += 1;
    }
    assert(texts(parts@).take(index as int) =~= texts(parts@));
    text
}

/// The decimal digit of a value below ten.
pub open spec fn digit(value: nat) -> char {
    (48 + value) as char
}

/// The decimal numeral of a number, without leading zeros.
pub open spec fn decimal(value: nat) -> Seq<char>
    decreases value,
{
    if value < 10 {
        seq![digit(value)]
    } else {
        decimal(value / 10).push(digit(value % 10))
    }
}

/// Writes a number in decimal.
pub fn decimal_text(value: u128) -> (r: String)
    ensures
        r@ == decimal(value as nat),
    decreases value,
{
    let last: u8 = (value % 10) as u8;
    let character: char = (48u8 + last) as char;
    if value < 10 {
        let mut text = String::new();
        text.push(character);
        assert(text@ =~= seq![digit(value as nat)]);
        text
    } else {
        let mut text = decimal_text(value / 10);
        text.push(character);
        text
    }
}

/// Byte sequences in lexicographic order: `left` comes strictly before `right`.
pub open spec fn bytes_before(left: Seq<u8>, right: Seq<u8>) -> bool
    decreases left.len(),
{
    if right.len() == 0 {
        false
    } else if left.len() == 0 {
        true
    } else if left[0] != right[0] {
        left[0] < right[0]
    } else {
        bytes_before(left.skip(1), right.skip(1))
    }
}

/// Strings in the lexicographic order of their UTF-8 bytes.
pub open spec fn text_before(left: Seq<char>, right: Seq<char>) -> bool {
    bytes_before(vstd::utf8::encode_utf8(left), vstd::utf8::encode_utf8(right))
}

pub proof fn lemma_bytes_before_asymmetric(left: Seq<u8>, right: Seq<u8>)
    ensures
        !(bytes_before(left, right) && bytes_before(right, left)),
        !bytes_before(left, left),
        left == right || bytes_before(left, right) || bytes_before(right, left),
    decreases left.len(),
{
    if left.len() > 0 {
        lemma_bytes_before_asymmetric(left.skip(1), left.skip(1));
        if right.len() > 0 {
            lemma_bytes_before_asymmetric(left.skip(1), right.skip(1));
            if left[0] == right[0] && left.skip(1) == right.skip(1) {
                assert(left =~= seq![left[0]] + left.skip(1));
                assert(right =~= seq![right[0]] + right.skip(1));
            }
        }
    } else if right.len() == 0 {
        assert(left =~= right);
    }
}

pub proof fn lemma_bytes_before_transitive(a: Seq<u8>, b: Seq<u8>, c: Seq<u8>)
    requires
        bytes_before(a, b),
        bytes_before(b, c),
    ensures
        bytes_before(a, c),
    decreases a.len(),
{
    if a.len() > 0 && a[0] == b[0] && b[0] == c[0] {
        lemma_bytes_before_transitive(a.skip(1), b.skip(1), c.skip(1));
    }
}

/// The order of strings is a strict total order.
pub proof fn lemma_text_before_total(left: Seq<char>, right: Seq<char>)
    ensures
        !(text_before(left, right) && text_before(right, left)),
        !text_before(left, left),
        left == right || text_before(left, right) || text_before(right, left),
{
    vstd::utf8::encode_utf8_decode_utf8(left);
    vstd::utf8::encode_utf8_decode_utf8(right);
    lemma_bytes_before_asymmetric(
        vstd::utf8::encode_utf8(left),
        vstd::utf8::encode_utf8(right),
    );
}

pub proof fn lemma_text_before_transitive(a: Seq<char>, b: Seq<char>, c: Seq<char>)
    requires
        text_before(a, b),
        text_before(b, c),
    ensures
        text_before(a, c),
{
    lemma_bytes_before_transitive(
        vstd::utf8::encode_utf8(a),
        vstd::utf8::encode_utf8(b),
        vstd::utf8::encode_utf8(c),
    );
}

/// Whether one byte sequence comes strictly before another one.
pub fn byte_order(left: &[u8], right: &[u8]) -> (r: bool)
    ensures
        r == bytes_before(left@, right@),
{
    let mut index: usize = 0;
    assert(left@.skip(0) =~= left@);
    assert(right@.skip(0) =~= right@);
    while index < left.len() && index < right.len()
        invariant
            index <= left.len(),
            index <= right.len(),
            bytes_before(left@, right@) == bytes_before(
                left@.skip(index as int),
                right@.skip(index as int),
            ),
        decreases left.len() - index,
    {
        if left[index] != right[index] {
            return left[index] < right[index];
        }
        assert(left@.skip(index as int).skip(1) =~= left@.skip(index + 1));
        assert(right@.skip(index as int).skip(1) =~= right@.skip(index + 1));
        index += 1;
    }
    index < right.len()
}

/// Whether one string comes strictly before another one.
pub fn text_order(left: &str, right: &str) -> (r: bool)
    ensures
        r == text_before(left@, right@),
{
    byte_order(left.as_bytes(), right.as_bytes())
}

/// The lower-case hexadecimal digit of a value below sixteen.
pub open spec fn hex_digit(value: nat) -> char {
    if value < 10 {
        (48 + value) as char
    } else {
        (87 + value) as char
    }
}

/// The lower-case hexadecimal numeral of a number, without leading zeros.
pub open spec fn hexadecimal(value: nat) -> Seq<char>
    decreases value,
{
    if value < 16 {
        seq![hex_digit(value)]
    } else {
        hexadecimal(value / 16).push(hex_digit(value % 16))
    }
}

/// The hexadecimal digit of a value below sixteen.
pub fn hex_character(value: u8) -> (r: char)
    requires
        value < 16,
    ensures
        r == hex_digit(value as nat),
{
    if value < 10 {
        (48u8 + value) as char
    } else {
        (87u8 + value) as char
    }
}

/// Writes a number in hexadecimal.
pub fn hexadecimal_text(value: u32) -> (r: String)
    ensures
        r@ == hexadecimal(value as nat),
    decreases value,
{
    let character = hex_character((value % 16) as u8);
    if value < 16 {
        let mut text = String::new();
        text.push(character);
        assert(text@ =~= seq![hex_digit(value as nat)]);
        text
    } else {
        let mut text = hexadecimal_text(value / 16);
        text.push(character);
        text
    }
}

/// Whether a list of strings holds the given one.
pub fn contains_text(list: &[&str], entry: &str) -> (r: bool)
    ensures
        r == slices(list@).contains(entry@),
{
    let mut index: usize = 0;
    while index < list.len()
        invariant
            index <= list.len(),
            forall|i: int| 0 <= i < index ==> #[trigger] slices(list@)[i] != entry@,
        decreases list.len() - index,
    {
        assert(slices(list@)[index as int] == list@[index as int]@);
        if str_equal(list[index], entry) {
            return true;
        }
        index += 1;
    }
    false
}

/// `std::str::from_utf8`: it succeeds exactly on valid UTF-8.
#[verifier::external_body]
fn from_utf8(bytes: &[u8]) -> (r: bool)
    ensures
        r == vstd::utf8::valid_utf8(bytes@),
{
    std::str::from_utf8(bytes).is_ok()
}

/// Whether bytes are valid UTF-8.
pub fn is_utf8(bytes: &[u8]) -> (r: bool)
    ensures
        r == vstd::utf8::valid_utf8(bytes@),
{
    from_utf8(bytes)
}

/// Whether some character is a control code.
pub open spec fn holds_control(source: Seq<char>) -> bool {
    exists|i: int| 0 <= i < source.len() && is_control(#[trigger] source[i])
}

/// Whether a string holds a control code.
pub fn has_control(source: &str) -> (r: bool)
    ensures
        r == holds_control(source@),
{
    let characters = chars_of(source);
    let mut index: usize = 0;
    while index < characters.len()
        invariant
            characters@ == source@,
            index <= characters.len(),
            forall|i: int| 0 <= i < index ==> !is_control(#[trigger] source@[i]),
        decreases characters.len() - index,
    {
        if control_character(characters[index]) {
            assert(is_control(source@[index as int]));
            return true;
        }
        index += 1;
    }
    false
}

/// The last `width` digits of a number in lower-case hexadecimal, with leading
/// zeros.
pub open spec fn padded_hex(value: nat, width: nat) -> Seq<char>
    decreases width,
{
    if width == 0 {
        Seq::empty()
    } else {
        padded_hex(value / 16, (width - 1) as nat).push(hex_digit(value % 16))
    }
}

/// Writes the last `width` hexadecimal digits of a number.
pub fn padded_hex_text(value: u64, width: u32) -> (r: String)
    ensures
        r@ == padded_hex(value as nat, width as nat),
    decreases width,
{
    if width == 0 {
        let empty = String::new();
        assert(empty@ =~= Seq::<char>::empty());
        empty
    } else {
        let mut written = padded_hex_text(value / 16, width - 1);
        written.push(hex_character((value % 16) as u8));
        written
    }
}

/// How many numbers a numeral of a width can tell apart.
pub open spec fn hex_room(width: nat) -> nat
    decreases width,
{
    if width == 0 {
        1
    } else {
        16 * hex_room((width - 1) as nat)
    }
}

/// Different numbers within the width have different numerals.
pub proof fn padded_numerals_are_distinct(left: nat, right: nat, width: nat)
    requires
        left < hex_room(width),
        right < hex_room(width),
        padded_hex(left, width) == padded_hex(right, width),
    ensures
        left == right,
    decreases width,
{
    if width > 0 {
        let shorter = (width - 1) as nat;
        let first = padded_hex(left, width);
        let second = padded_hex(right, width);
        assert(first.last() == hex_digit(left % 16) && second.last() == hex_digit(right % 16));
        assert(first.drop_last() =~= padded_hex(left / 16, shorter));
        assert(second.drop_last() =~= padded_hex(right / 16, shorter));
        padded_numerals_are_distinct(left / 16, right / 16, shorter);
    }
}

/// A numeral has as many characters as its width, all of them digits.
pub proof fn padded_numerals_are_digits(value: nat, width: nat)
    ensures
        padded_hex(value, width).len() == width,
        forall|i: int|
            0 <= i < width ==> '0' <= #[trigger] padded_hex(value, width)[i] <= 'f',
    decreases width,
{
    if width > 0 {
        padded_numerals_are_digits(value / 16, (width - 1) as nat);
    }
}

/// Joined texts fall apart where their lists do: the parts of two lists are
/// joined with the same separator between them, and one part stands alone.
pub proof fn joined_texts_fall_apart(
    first: Seq<Seq<char>>,
    second: Seq<Seq<char>>,
    separator: Seq<char>,
    part: Seq<char>,
)
    ensures
        joined(Seq::empty(), separator) == Seq::<char>::empty(),
        joined(seq![part], separator) == part,
        first.len() > 0 && second.len() > 0 ==> joined(first + second, separator) == joined(
            first,
            separator,
        ) + separator + joined(second, separator),
    decreases second.len(),
{
    if first.len() > 0 && second.len() > 0 {
        assert((first + second).drop_last() =~= first + second.drop_last());
        assert((first + second).last() == second.last());
        if second.len() == 1 {
            assert(first + second.drop_last() =~= first);
            assert(second[0] == second.last());
        } else {
            joined_texts_fall_apart(first, second.drop_last(), separator, part);
            assert(joined(first, separator) + separator + joined(second.drop_last(), separator)
                + separator + second.last() =~= joined(first, separator) + separator + (joined(
                second.drop_last(),
                separator,
            ) + separator + second.last()));
        }
    }
}

/// A sequence of bytes comes before another one exactly if it is a proper
/// beginning of it, or if it holds the smaller byte where they first differ.
pub proof fn the_first_difference_decides(left: Seq<u8>, right: Seq<u8>, k: int)
    requires
        0 <= k <= left.len(),
        k <= right.len(),
        forall|i: int| 0 <= i < k ==> #[trigger] left[i] == right[i],
    ensures
        k == left.len() && k < right.len() ==> bytes_before(left, right),
        k == left.len() && k == right.len() ==> !bytes_before(left, right),
        k < left.len() && k == right.len() ==> !bytes_before(left, right),
        k < left.len() && k < right.len() && left[k] != right[k] ==> (bytes_before(left, right)
            <==> left[k] < right[k]),
    decreases k,
{
    if k > 0 {
        assert(left[0] == right[0]);
        assert forall|i: int| 0 <= i < k - 1 implies #[trigger] left.skip(1)[i]
            == right.skip(1)[i] by {
            assert(left[i + 1] == right[i + 1]);
        }
        the_first_difference_decides(left.skip(1), right.skip(1), k - 1);
    }
}

/// A numeral has no more digits than it needs, and a digit is what its place
/// makes it.
pub proof fn numerals_are_shortest(value: nat)
    ensures
        decimal(value).len() > 0,
        value < 10 ==> decimal(value).len() == 1,
        value > 0 ==> decimal(value)[0] != '0',
        forall|i: int| 0 <= i < decimal(value).len() ==> '0' <= #[trigger] decimal(value)[i] <= '9',
        decimal(value).last() as nat == 48 + value % 10,
        value >= 10 ==> decimal(value).drop_last() == decimal(value / 10),
    decreases value,
{
    if value >= 10 {
        numerals_are_shortest(value / 10);
        let before = decimal(value / 10);
        assert(decimal(value).drop_last() =~= before);
        assert forall|i: int| 0 <= i < decimal(value).len() implies '0' <= #[trigger] decimal(
            value,
        )[i] <= '9' by {
            if i < before.len() {
                assert(decimal(value)[i] == before[i]);
            }
        }
    } else {
        assert(decimal(value) =~= seq![digit(value)]);
    }
}

/// Hexadecimal numerals have the digits `0` to `9` and `a` to `f`, no more of
/// them than they need, and each is what its place makes it.
pub proof fn hexadecimal_numerals_are_shortest(value: nat)
    ensures
        hexadecimal(value).len() > 0,
        value < 16 ==> hexadecimal(value).len() == 1,
        value > 0 ==> hexadecimal(value)[0] != '0',
        value % 16 < 10 ==> hexadecimal(value).last() as nat == 48 + value % 16,
        value % 16 >= 10 ==> hexadecimal(value).last() as nat == 87 + value % 16,
        value >= 16 ==> hexadecimal(value).drop_last() == hexadecimal(value / 16),
    decreases value,
{
    if value >= 16 {
        hexadecimal_numerals_are_shortest(value / 16);
        assert(hexadecimal(value).drop_last() =~= hexadecimal(value / 16));
    } else {
        assert(hexadecimal(value) =~= seq![hex_digit(value)]);
    }
}

/// The control codes are the characters below the space, the delete character,
/// and the codes up to the non-breaking space.
pub proof fn control_codes_are_two_ranges(c: char, first: Seq<char>, second: Seq<char>)
    ensures
        is_control(c) <==> (c < ' ' || ('\x7f' <= c && c < '\u{a0}')),
        holds_control(first + second) <==> holds_control(first) || holds_control(second),
        holds_control(seq![c]) <==> is_control(c),
{
    let both = first + second;
    if holds_control(both) {
        let i = choose|i: int| 0 <= i < both.len() && is_control(#[trigger] both[i]);
        if i < first.len() {
            assert(is_control(first[i]));
        } else {
            assert(is_control(second[i - first.len()]));
        }
    }
    if holds_control(first) {
        let i = choose|i: int| 0 <= i < first.len() && is_control(#[trigger] first[i]);
        assert(is_control(both[i]));
    }
    if holds_control(second) {
        let i = choose|i: int| 0 <= i < second.len() && is_control(#[trigger] second[i]);
        assert(is_control(both[first.len() + i]));
    }
    if is_control(c) {
        assert(is_control(seq![c][0]));
    }
}

/// Letters are compared without regard to case: a letter is itself, and two
/// letters are the same exactly if they agree in lower case or in upper case.
pub proof fn letters_ignore_case(left: char, right: char)
    ensures
        same_letter(left, left),
        same_letter(left, right) <==> same_letter(right, left),
        lowercase_of(left) == lowercase_of(right) ==> same_letter(left, right),
        uppercase_of(left) == uppercase_of(right) ==> same_letter(left, right),
        left != right && lowercase_of(left) != lowercase_of(right) && uppercase_of(left)
            != uppercase_of(right) ==> !same_letter(left, right),
{
}

} // verus!
