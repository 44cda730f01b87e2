//! Text building blocks: joining, comparing and reading plain strings.

use vstd::prelude::*;

verus! {

/// The views of a run of strings.
pub open spec fn texts(names: Seq<String>) -> Seq<Seq<char>> {
    Seq::new(names.len(), |i: int| names[i]@)
}

/// The view of an optional string.
pub open spec fn text_option(name: Option<String>) -> Option<Seq<char>> {
    match name {
        Some(name) => Some(name@),
        None => None,
    }
}

/// `str` equality: two strings are equal when they hold the same characters.
#[verifier::external_body]
pub(crate) fn same_text(left: &str, right: &str) -> (same: bool)
    ensures
        same == (left@ == right@),
{
    left == right
}

/// `String::push`: the character is appended.
pub assume_specification[ String::push ](target: &mut String, character: char)
    ensures
        final(target)@ == old(target)@.push(character),
;

/// One ASCII capital letter as its small letter; every other character as it is.
pub open spec fn lower_char(character: char) -> char {
    if 'A' <= character <= 'Z' {
        ((character as u32 + 32) as u32) as char
    } else {
        character
    }
}

/// The text with ASCII capital letters replaced by small ones.
pub open spec fn lower(text: Seq<char>) -> Seq<char> {
    Seq::new(text.len(), |i: int| lower_char(text[i]))
}

fn to_lower_char(character: char) -> (lowered: char)
    ensures
        lowered == lower_char(character),
{
    if 'A' <= character && character <= 'Z' {
        ((character as u8) + 32) as char
    } else {
        character
    }
}

/// A text with ASCII capital letters replaced by small ones.
pub(crate) fn to_lower(text: &str) -> (lowered: String)
    ensures
        lowered@ == lower(text@),
{
    let mut lowered: String = String::new();
    for character in iter: text.chars()
        invariant
            lowered@ == lower(text@.take(iter.index())),
            iter.seq() == text@,
    {
        assert(lower(text@.take(iter.index() + 1)) =~= lower(text@.take(iter.index())).push(
            lower_char(character),
        ));
        lowered.push(to_lower_char(character));
    }
    assert(text@.take(text@.len() as int) =~= text@);
    lowered
}

/// What `{:?}` prints for a string: the text in double quotes, with escapes.
pub uninterp spec fn quoted_text(text: Seq<char>) -> Seq<char>;

/// The `Debug` form of a string. The contract only names the result, since
/// which characters are escaped follows the Unicode tables of std.
#[verifier::external_body]
pub(crate) fn quoted(text: &str) -> (result: String)
    ensures
        result@ == quoted_text(text@),
{
    format!("{text:?}")
}

/// The text of `left` followed by the text of `right`.
pub fn join(left: &str, right: &str) -> (joined: String)
    ensures
        joined@ == left@ + right@,
{
    let mut joined = left.to_owned();
    joined.append(right);
    joined
}

/// Three texts in a row.
pub fn join3(first: &str, second: &str, third: &str) -> (joined: String)
    ensures
        joined@ == first@ + second@ + third@,
{
    let mut joined = first.to_owned();
    joined.append(second);
    joined.append(third);
    joined
}

/// Four texts in a row.
pub fn join4(first: &str, second: &str, third: &str, fourth: &str) -> (joined: String)
    ensures
        joined@ == first@ + second@ + third@ + fourth@,
{
    let mut joined = join3(first, second, third);
    joined.append(fourth);
    joined
}

/// Five texts in a row.
pub fn join5(first: &str, second: &str, third: &str, fourth: &str, fifth: &str) -> (joined: String)
    ensures
        joined@ == first@ + second@ + third@ + fourth@ + fifth@,
{
    let mut joined = join4(first, second, third, fourth);
    joined.append(fifth);
    joined
}

/// The decimal digit for a number below ten.
pub open spec fn digit(value: nat) -> char {
    if value == 0 {
        '0'
    } else if value == 1 {
        '1'
    } else if value == 2 {
        '2'
    } else if value == 3 {
        '3'
    } else if value == 4 {
        '4'
    } else if value == 5 {
        '5'
    } else if value == 6 {
        '6'
    } else if value == 7 {
        '7'
    } else if value == 8 {
        '8'
    } else {
        '9'
    }
}

/// The decimal digits of a number, without leading zeros.
pub open spec fn decimal(value: nat) -> Seq<char>
    decreases value,
{
    if value < 10 {
        seq![digit(value)]
    } else {
        decimal(value / 10).push(digit(value % 10))
    }
}

fn digit_char(value: u64) -> (character: char)
    requires
        value < 10,
    ensures
        character == digit(value as nat),
{
    match value {
        0 => '0',
        1 => '1',
        2 => '2',
        3 => '3',
        4 => '4',
        5 => '5',
        6 => '6',
        7 => '7',
        8 => '8',
        _ => '9',
    }
}

/// Writes a number in decimal digits.
pub fn decimal_text(value: u64) -> (text: String)
    ensures
        text@ == decimal(value as nat),
    decreases value,
{
    if value < 10 {
        let mut text = String::new();
        text.push(digit_char(value));
        proof {
            assert(text@ =~= seq![digit(value as nat)]);
        }
        text
    } else {
        let mut text = decimal_text(value / 10);
        text.push(digit_char(value % 10));
        text
    }
}

/// Writes a count in decimal digits.
pub fn count_text(value: usize) -> (text: String)
    ensures
        text@ == decimal(value as nat),
{
    decimal_text(value as u64)
}

/// The value of a decimal digit character.
pub open spec fn digit_value(character: char) -> nat {
    (character as u32 - '0' as u32) as nat
}

/// The number that a run of decimal digits stands for; none where a character
/// is not a digit.
pub open spec fn digits_value(digits: Seq<char>) -> Option<nat>
    decreases digits.len(),
{
    if digits.len() == 0 {
        Some(0)
    } else if '0' <= digits.last() <= '9' {
        match digits_value(digits.drop_last()) {
            Some(high) => Some(10 * high + digit_value(digits.last())),
            None => None,
        }
    } else {
        None
    }
}

/// What `str::parse` reads an unsigned number as: an optional plus sign, then
/// at least one digit, and a value that fits.
pub open spec fn unsigned_value(text: Seq<char>, maximum: nat) -> Option<nat> {
    let digits = if text.len() > 0 && text[0] == '+' {
        text.skip(1)
    } else {
        text
    };
    match digits_value(digits) {
        Some(value) => if digits.len() > 0 && value <= maximum {
            Some(value)
        } else {
            None
        },
        None => None,
    }
}

/// What `str::parse` reads a signed 64-bit number as: an optional sign, then
/// at least one digit, and a value that fits.
pub open spec fn signed_value(text: Seq<char>) -> Option<int> {
    if text.len() > 0 && text[0] == '-' {
        match digits_value(text.skip(1)) {
            Some(value) => if text.len() > 1 && -value >= i64::MIN {
                Some(-value)
            } else {
                None
            },
            None => None,
        }
    } else {
        match unsigned_value(text, i64::MAX as nat) {
            Some(value) => Some(value as int),
            None => None,
        }
    }
}

/// `str::parse::<usize>`: succeeds on an optional plus sign and digits whose
/// value fits, and gives that value.
#[verifier::external_body]
pub(crate) fn parse_count(text: &str) -> (value: Option<usize>)
    ensures
        value is Some <==> unsigned_value(text@, usize::MAX as nat) is Some,
        value matches Some(value) ==> unsigned_value(text@, usize::MAX as nat) == Some(value as nat),
{
    text.parse().ok()
}

/// `str::parse::<i64>`: succeeds on an optional sign and digits whose value
/// fits, and gives that value.
#[verifier::external_body]
pub(crate) fn parse_integer(text: &str) -> (value: Option<i64>)
    ensures
        value is Some <==> signed_value(text@) is Some,
        value matches Some(value) ==> signed_value(text@) == Some(value as int),
{
    text.parse().ok()
}

/// How a text reads as a float: none where it is no float at all, otherwise
/// whether the float nearest to it is finite.
pub uninterp spec fn float_reading(text: Seq<char>) -> Option<bool>;

/// `serde_json::Number::from_f64` on what `str::parse` reads: the number
/// exists exactly when the float that was read is finite. The contract names
/// the answer, since where a decimal text rounds to infinity takes the whole
/// of float parsing to state.
#[verifier::external_body]
pub(crate) fn read_float(text: &str) -> (reading: Option<bool>)
    ensures
        reading == float_reading(text@),
{
    text.parse().ok().map(|value| serde_json::Number::from_f64(value).is_some())
}

/// Whether two runs of names hold the same names in the same order.
pub fn same_texts(left: &Vec<String>, right: &Vec<String>) -> (same: bool)
    ensures
        same == (texts(left@) == texts(right@)),
{
    if left.len() != right.len() {
        assert(texts(left@).len() != texts(right@).len());
        return false;
    }
    let mut i: usize = 0;
    while i < left.len()
        invariant
            i <= left.len(),
            left.len() == right.len(),
            forall|k: int| 0 <= k < i ==> left@[k]@ == right@[k]@,
        decreases left.len() - i,
    {
        if !same_text(left[i].as_str(), right[i].as_str()) {
            assert(texts(left@)[i as int] != texts(right@)[i as int]);
            return false;
        }
        i += 1;
    }
    assert(texts(left@) =~= texts(right@));
    true
}

/// Whether a run of names holds a name.
pub fn contains_text(names: &Vec<String>, name: &str) -> (found: bool)
    ensures
        found == texts(names@).contains(name@),
{
    let mut i: usize = 0;
    while i < names.len()
        invariant
            i <= names.len(),
            forall|k: int| 0 <= k < i ==> names@[k]@ != name@,
        decreases names.len() - i,
    {
        if same_text(names[i].as_str(), name) {
            assert(texts(names@)[i as int] == name@);
            return true;
        }
        i += 1;
    }
    assert forall|k: int| 0 <= k < texts(names@).len() implies texts(names@)[k] != name@ by {
        assert(names@[k]@ != name@);
    }
    false
}

/// A copy of a run of names.
pub fn copy_texts(names: &Vec<String>) -> (copy: Vec<String>)
    ensures
        texts(copy@) == texts(names@),
{
    let mut copy: Vec<String> = Vec::new();
    let mut i: usize = 0;
    while i < names.len()
        invariant
            i <= names.len(),
            copy.len() == i,
            forall|k: int| 0 <= k < i ==> copy@[k]@ == names@[k]@,
        decreases names.len() - i,
    {
        copy.push(names[i].clone());
        i += 1;
    }
    assert(texts(copy@) =~= texts(names@));
    copy
}

/// A copy of an optional name.
pub fn copy_text_option(name: &Option<String>) -> (copy: Option<String>)
    ensures
        text_option(copy) == text_option(*name),
{
    match name {
        Some(name) => Some(name.clone()),
        None => None,
    }
}

/// Whether two optional names are the same.
pub fn same_text_option(left: &Option<String>, right: &Option<String>) -> (same: bool)
    ensures
        same == (text_option(*left) == text_option(*right)),
{
    match (left, right) {
        (Some(left), Some(right)) => same_text(left.as_str(), right.as_str()),
        (None, None) => true,
        _ => false,
    }
}

/// The characters of a text.
pub fn characters(text: &str) -> (result: Vec<char>)
    ensures
        result@ == text@,
{
    let mut result: Vec<char> = Vec::new();
    for character in iter: text.chars()
        invariant
            result@ == text@.take(iter.index()),
            iter.seq() == text@,
    {
        assert(text@.take(iter.index() + 1) =~= text@.take(iter.index()).push(character));
        result.push(character);
    }
    assert(text@.take(text@.len() as int) =~= text@);
    result
}

/// The text of a run of characters.
pub fn from_characters(characters: &Vec<char>, start: usize, end: usize) -> (text: String)
    requires
        start <= end <= characters.len(),
    ensures
        text@ == characters@.subrange(start as int, end as int),
{
    let mut text = String::new();
    let mut i: usize = start;
    assert(text@ =~= characters@.subrange(start as int, start as int));
    while i < end
        invariant
            start <= i <= end <= characters.len(),
            text@ == characters@.subrange(start as int, i as int),
        decreases end - i,
    {
        text.push(characters[i]);
        assert(characters@.subrange(start as int, i + 1) =~= characters@.subrange(
            start as int,
            i as int,
        ).push(characters@[i as int]));
        i += 1;
    }
    text
}

/// Whether a text begins with another.
pub open spec fn begins(text: Seq<char>, prefix: Seq<char>) -> bool {
    prefix.len() <= text.len() && text.subrange(0, prefix.len() as int) == prefix
}

/// Whether a text ends with another.
pub open spec fn ends(text: Seq<char>, suffix: Seq<char>) -> bool {
    suffix.len() <= text.len() && text.subrange(text.len() - suffix.len(), text.len() as int)
        == suffix
}

/// Whether a text begins with another.
pub fn starts_with(text: &str, prefix: &str) -> (yes: bool)
    ensures
        yes == begins(text@, prefix@),
{
    let letters = characters(text);
    let length = prefix.unicode_len();
    if length > letters.len() {
        return false;
    }
    let start = from_characters(&letters, 0, length);
    same_text(start.as_str(), prefix)
}

/// Whether a text ends with another.
pub fn ends_with(text: &str, suffix: &str) -> (yes: bool)
    ensures
        yes == ends(text@, suffix@),
{
    let letters = characters(text);
    let length = suffix.unicode_len();
    if length > letters.len() {
        return false;
    }
    let end = from_characters(&letters, letters.len() - length, letters.len());
    same_text(end.as_str(), suffix)
}

/// `str::parse::<u64>`: succeeds on an optional plus sign and digits whose
/// value fits, and gives that value.
#[verifier::external_body]
pub(crate) fn parse_unsigned(text: &str) -> (value: Option<u64>)
    ensures
        value is Some <==> unsigned_value(text@, u64::MAX as nat) is Some,
        value matches Some(value) ==> unsigned_value(text@, u64::MAX as nat) == Some(value as nat),
{
    text.parse().ok()
}

/// The characters with the Unicode property White_Space.
pub open spec fn white_space(character: char) -> bool {
    ||| '\u{9}' <= character <= '\u{d}'
    ||| character == '\u{20}'
    ||| character == '\u{85}'
    ||| character == '\u{a0}'
    ||| character == '\u{1680}'
    ||| '\u{2000}' <= character <= '\u{200a}'
    ||| character == '\u{2028}'
    ||| character == '\u{2029}'
    ||| character == '\u{202f}'
    ||| character == '\u{205f}'
    ||| character == '\u{3000}'
}

/// Whether a character has the Unicode property White_Space.
pub(crate) fn is_white_space(character: char) -> (yes: bool)
    ensures
        yes == white_space(character),
{
    '\u{9}' <= character && character <= '\u{d}' || character == '\u{20}' || character == '\u{85}'
        || character == '\u{a0}' || character == '\u{1680}' || '\u{2000}' <= character && character
        <= '\u{200a}' || character == '\u{2028}' || character == '\u{2029}' || character
        == '\u{202f}' || character == '\u{205f}' || character == '\u{3000}'
}

} // verus!
