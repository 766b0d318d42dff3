//! Text as sequences of characters.
use vstd::prelude::*;
use vstd::utf8::*;

use crate::bytes::same_bytes;

verus! {

/// The text of a plaintext, with the replacement character in place of what is
/// not UTF-8.
pub uninterp spec fn lossy_text(bytes: Seq<u8>) -> Seq<char>;

/// Wraps `String::from_utf8_lossy`: valid UTF-8 is decoded as it is.
#[verifier::external_body]
pub(crate) fn utf8_lossy(bytes: &[u8]) -> (result: String)
    ensures
        result@ == lossy_text(bytes@),
        valid_utf8(bytes@) ==> result@ == decode_utf8(bytes@),
{
    String::from_utf8_lossy(bytes).into_owned()
}

/// Wraps `String::from_utf8`: the bytes become a string exactly when they are
/// valid UTF-8, and the string's characters are then the decoded ones.
#[verifier::external_body]
pub(crate) fn utf8_string(bytes: Vec<u8>) -> (text: Option<String>)
    ensures
        match text {
            Some(value) => valid_utf8(bytes@) && value@ == decode_utf8(bytes@),
            None => !valid_utf8(bytes@),
        },
{
    String::from_utf8(bytes).ok()
}

/// `String::push`: one character is added at the end.
pub assume_specification[ String::push ](grown: &mut String, pushed: char)
    ensures
        final(grown)@ == old(grown)@.push(pushed),
;

/// The characters of a text.
pub(crate) fn characters(text: &str) -> (result: Vec<char>)
    ensures
        result@ == text@,
{
    let mut result: Vec<char> = Vec::new();
    for character in iter: text.chars()
        invariant
            result@ == iter.seq().take(iter.index() as int),
            iter.seq() == text@,
    {
        result.push(character);
        assert(result@ =~= iter.seq().take(iter.index() as int + 1));
    }
    assert(text@.take(text@.len() as int) =~= text@);
    result
}

/// The text of the characters from `start` to `end`.
pub(crate) fn text_range(characters: &[char], start: usize, end: usize) -> (text: String)
    requires
        start <= end <= characters@.len(),
    ensures
        text@ == characters@.subrange(start as int, end as int),
{
    let mut text = String::new();
    let mut index: usize = start;
    assert(text@ =~= characters@.subrange(start as int, start as int));
    while index < end
        invariant
            start <= index <= end <= characters@.len(),
            text@ == characters@.subrange(start as int, index as int),
        decreases end - index,
    {
        text.push(characters[index]);
        assert(text@ =~= characters@.subrange(start as int, index + 1));
        index += 1;
    }
    text
}

/// Whether two texts are the same.
pub(crate) fn same_text(left: &str, right: &str) -> (same: bool)
    ensures
        same == (left@ == right@),
{
    proof {
        encode_utf8_decode_utf8(left@);
        encode_utf8_decode_utf8(right@);
    }
    same_bytes(left.as_bytes(), right.as_bytes())
}

/// Whether two optional texts are the same.
pub(crate) fn same_optional_text(left: &Option<String>, right: &str) -> (same: bool)
    ensures
        same == (left matches Some(value) && value@ == right@),
{
    match left {
        Some(value) => same_text(value.as_str(), right),
        None => false,
    }
}

/// Whether `text` opens with `prefix`.
pub open spec fn opens_with(text: Seq<char>, prefix: Seq<char>) -> bool {
    prefix.len() <= text.len() && text.take(prefix.len() as int) == prefix
}

/// What follows `prefix` in a text that opens with it.
pub(crate) fn strip_prefix(text: &str, prefix: &str) -> (rest: Option<String>)
    ensures
        match rest {
            Some(value) => opens_with(text@, prefix@) && value@ == text@.skip(prefix@.len() as int),
            None => !opens_with(text@, prefix@),
        },
{
    let all = characters(text);
    let front = characters(prefix);
    if all.len() < front.len() {
        return None;
    }
    let mut index: usize = 0;
    while index < front.len()
        invariant
            index <= front@.len() <= all@.len(),
            all@ == text@,
            front@ == prefix@,
            forall|i: int| 0 <= i < index ==> all@[i] == front@[i],
        decreases front@.len() - index,
    {
        if all[index] != front[index] {
            assert(all@.take(front@.len() as int)[index as int] != front@[index as int]);
            return None;
        }
        index += 1;
    }
    assert(all@.take(front@.len() as int) =~= front@);
    let rest = text_range(all.as_slice(), front.len(), all.len());
    assert(rest@ =~= text@.skip(prefix@.len() as int));
    Some(rest)
}

/// Whether `text` opens with `prefix`.
pub(crate) fn starts_with(text: &str, prefix: &str) -> (result: bool)
    ensures
        result == opens_with(text@, prefix@),
{
    strip_prefix(text, prefix).is_some()
}

/// Whether a character occurs in a text.
pub(crate) fn contains_char(text: &str, wanted: char) -> (found: bool)
    ensures
        found == text@.contains(wanted),
{
    let all = characters(text);
    let mut index: usize = 0;
    while index < all.len()
        invariant
            index <= all@.len(),
            all@ == text@,
            forall|i: int| 0 <= i < index ==> all@[i] != wanted,
        decreases all@.len() - index,
    {
        if all[index] == wanted {
            assert(text@[index as int] == wanted);
            return true;
        }
        index += 1;
    }
    false
}

/// Whether `wanted` occurs in `text` at `index`.
pub open spec fn occurs_at(text: Seq<char>, wanted: Seq<char>, index: int) -> bool {
    0 <= index && index + wanted.len() <= text.len() && text.subrange(index, index + wanted.len())
        == wanted
}

/// Whether `wanted` occurs in `text`.
pub open spec fn occurs_in(text: Seq<char>, wanted: Seq<char>) -> bool {
    exists|index: int| occurs_at(text, wanted, index)
}

/// Whether a text occurs inside another one.
pub(crate) fn contains_text(text: &str, wanted: &str) -> (found: bool)
    ensures
        found == occurs_in(text@, wanted@),
{
    let all = characters(text);
    let part = characters(wanted);
    if all.len() < part.len() {
        return false;
    }
    let mut index: usize = 0;
    while index <= all.len() - part.len()
        invariant
            part@.len() <= all@.len(),
            index <= all@.len() - part@.len() + 1,
            all@ == text@,
            part@ == wanted@,
            forall|i: int| 0 <= i < index ==> !occurs_at(text@, wanted@, i),
        decreases all@.len() + 1 - index,
    {
        let mut matched: usize = 0;
        while matched < part.len() && all[index + matched] == part[matched]
            invariant
                matched <= part@.len(),
                index + part@.len() <= all@.len(),
                all@.len() == all.len(),
                forall|i: int| 0 <= i < matched ==> all@[index + i] == part@[i],
            decreases part@.len() - matched,
        {
            matched += 1;
        }
        if matched == part.len() {
            assert(text@.subrange(index as int, index + wanted@.len()) =~= wanted@);
            assert(occurs_at(text@, wanted@, index as int));
            return true;
        }
        assert(text@.subrange(index as int, index + wanted@.len())[matched as int]
            != wanted@[matched as int]);
        index += 1;
    }
    false
}

/// The characters with the Unicode property White_Space.
pub open spec fn is_white_space(character: char) -> bool {
    ||| '\u{9}' <= character <= '\u{d}'
    ||| character == ' '
    ||| character == '\u{85}'
    ||| character == '\u{a0}'
    ||| character == '\u{1680}'
    ||| '\u{2000}' <= character <= '\u{200a}'
    ||| character == '\u{2028}'
    ||| character == '\u{2029}'
    ||| character == '\u{202f}'
    ||| character == '\u{205f}'
    ||| character == '\u{3000}'
}

fn white_space(character: char) -> (result: bool)
    ensures
        result == is_white_space(character),
{
    let code: u32 = character as u32;
    (0x9 <= code && code <= 0xd) || code == 0x20 || code == 0x85 || code == 0xa0 || code == 0x1680
        || (0x2000 <= code && code <= 0x200a) || code == 0x2028 || code == 0x2029 || code == 0x202f
        || code == 0x205f || code == 0x3000
}

/// How many white-space characters a text opens with.
pub open spec fn leading_white_space(text: Seq<char>) -> int
    decreases text.len(),
{
    if text.len() > 0 && is_white_space(text[0]) {
        1 + leading_white_space(text.skip(1))
    } else {
        0
    }
}

/// How many white-space characters a text ends in.
pub open spec fn trailing_white_space(text: Seq<char>) -> int
    decreases text.len(),
{
    if text.len() > 0 && is_white_space(text.last()) {
        1 + trailing_white_space(text.drop_last())
    } else {
        0
    }
}

/// A text without the white space around it.
pub open spec fn trimmed(text: Seq<char>) -> Seq<char> {
    let rest = text.skip(leading_white_space(text));
    rest.take(rest.len() - trailing_white_space(rest))
}

proof fn lemma_leading(text: Seq<char>, count: int)
    requires
        0 <= count <= text.len(),
        forall|i: int| 0 <= i < count ==> is_white_space(text[i]),
        count < text.len() ==> !is_white_space(text[count]),
    ensures
        leading_white_space(text) == count,
    decreases count,
{
    if count > 0 {
        assert(is_white_space(text[0]));
        let rest = text.skip(1);
        assert forall|i: int| 0 <= i < count - 1 implies is_white_space(rest[i]) by {
            assert(is_white_space(text[i + 1]));
        }
        lemma_leading(rest, count - 1);
    }
}

proof fn lemma_trailing(text: Seq<char>, count: int)
    requires
        0 <= count <= text.len(),
        forall|i: int| text.len() - count <= i < text.len() ==> is_white_space(text[i]),
        count < text.len() ==> !is_white_space(text[text.len() - count - 1]),
    ensures
        trailing_white_space(text) == count,
    decreases count,
{
    if count > 0 {
        assert(is_white_space(text[text.len() - 1]));
        lemma_trailing(text.drop_last(), count - 1);
    }
}

/// A text that neither opens nor ends in white space, followed by white space,
/// is what trimming leaves.
pub proof fn lemma_trim_end(text: Seq<char>, space: Seq<char>)
    requires
        text.len() > 0 ==> !is_white_space(text[0]) && !is_white_space(text.last()),
        forall|i: int| 0 <= i < space.len() ==> is_white_space(space[i]),
    ensures
        trimmed(text + space) == text,
{
    let all = text + space;
    if text.len() == 0 {
        lemma_leading(all, space.len() as int);
        lemma_trailing(all.skip(space.len() as int), 0);
        assert(trimmed(all) =~= text);
    } else {
        lemma_leading(all, 0);
        assert(all.skip(0) =~= all);
        lemma_trailing(all, space.len() as int);
        assert(trimmed(all) =~= text);
    }
}

/// A trimmed text neither opens nor ends in white space.
pub proof fn lemma_trimmed_ends(text: Seq<char>)
    ensures
        0 <= leading_white_space(text) <= text.len(),
        trimmed(text).len() > 0 ==> !is_white_space(trimmed(text)[0]) && !is_white_space(
            trimmed(text).last(),
        ),
        forall|i: int| 0 <= i < trimmed(text).len() ==> text.contains(#[trigger] trimmed(text)[i]),
{
    lemma_leading_end(text);
    let rest = text.skip(leading_white_space(text));
    lemma_trailing_end(rest);
    assert forall|i: int| 0 <= i < trimmed(text).len() implies text.contains(
        #[trigger] trimmed(text)[i],
    ) by {
        assert(trimmed(text)[i] == text[i + leading_white_space(text)]);
    }
}

/// Trimming a trimmed text changes nothing.
pub proof fn lemma_trimmed_twice(text: Seq<char>)
    ensures
        trimmed(trimmed(text)) == trimmed(text),
{
    lemma_trimmed_ends(text);
    lemma_trim_end(trimmed(text), Seq::empty());
    assert(trimmed(text) + Seq::<char>::empty() =~= trimmed(text));
}

proof fn lemma_leading_end(text: Seq<char>)
    ensures
        0 <= leading_white_space(text) <= text.len(),
        leading_white_space(text) < text.len() ==> !is_white_space(
            text[leading_white_space(text)],
        ),
    decreases text.len(),
{
    if text.len() > 0 && is_white_space(text[0]) {
        lemma_leading_end(text.skip(1));
    }
}

proof fn lemma_trailing_end(text: Seq<char>)
    ensures
        0 <= trailing_white_space(text) <= text.len(),
        trailing_white_space(text) < text.len() ==> !is_white_space(
            text[text.len() - trailing_white_space(text) - 1],
        ),
    decreases text.len(),
{
    if text.len() > 0 && is_white_space(text.last()) {
        lemma_trailing_end(text.drop_last());
    }
}

/// Removes the white space around a text.
pub(crate) fn trim(text: &str) -> (result: String)
    ensures
        result@ == trimmed(text@),
{
    let all = characters(text);
    let mut start: usize = 0;
    while start < all.len() && white_space(all[start])
        invariant
            start <= all@.len(),
            forall|i: int| 0 <= i < start ==> is_white_space(all@[i]),
        decreases all@.len() - start,
    {
        start += 1;
    }
    let mut end: usize = all.len();
    while start < end && white_space(all[end - 1])
        invariant
            start <= end <= all@.len(),
            forall|i: int| end <= i < all@.len() ==> is_white_space(all@[i]),
        decreases end,
    {
        end -= 1;
    }
    proof {
        lemma_leading(text@, start as int);
        lemma_trailing(text@.skip(start as int), all@.len() - end);
        assert(trimmed(text@) =~= all@.subrange(start as int, end as int));
    }
    text_range(all.as_slice(), start, end)
}

// ---------------------------------------------------------------------------
// Numbers
// ---------------------------------------------------------------------------

/// The character of a decimal digit.
pub open spec fn digit_char(digit: int) -> char {
    (digit + 0x30) as char
}

/// A number in decimal notation.
pub open spec fn decimal(value: nat) -> Seq<char>
    decreases value,
{
    if value < 10 {
        seq![digit_char(value as int)]
    } else {
        decimal(value / 10).push(digit_char((value % 10) as int))
    }
}

/// A signed number in decimal notation.
pub open spec fn signed_decimal(value: int) -> Seq<char> {
    if value < 0 {
        seq!['-'] + decimal((-value) as nat)
    } else {
        decimal(value as nat)
    }
}

fn digit(value: u64) -> (character: char)
    requires
        value < 10,
    ensures
        character == digit_char(value as int),
{
    if value == 0 {
        '0'
    } else if value == 1 {
        '1'
    } else if value == 2 {
        '2'
    } else if value == 3 {
        '3'
    } else if value == 4 {
        '4'
    } else if value == 5 {
        '5'
    } else if value == 6 {
        '6'
    } else if value == 7 {
        '7'
    } else if value == 8 {
        '8'
    } else {
        '9'
    }
}

/// Writes a number in decimal notation.
pub(crate) fn decimal_text(value: u64) -> (text: String)
    ensures
        text@ == decimal(value as nat),
    decreases value,
{
    if value < 10 {
        let mut text = String::new();
        text.push(digit(value));
        assert(text@ =~= decimal(value as nat));
        text
    } else {
        let mut text = decimal_text(value / 10);
        text.push(digit(value % 10));
        text
    }
}

/// Writes a signed number in decimal notation.
pub(crate) fn signed_decimal_text(value: i64) -> (text: String)
    ensures
        text@ == signed_decimal(value as int),
{
    if value < 0 {
        let mut text = String::new();
        text.push('-');
        let magnitude: u64 = if value == i64::MIN {
            0x8000_0000_0000_0000
        } else {
            (-value) as u64
        };
        text.append(decimal_text(magnitude).as_str());
        assert(text@ =~= signed_decimal(value as int));
        text
    } else {
        decimal_text(value as u64)
    }
}

/// Whether a character is an ASCII decimal digit.
pub open spec fn is_digit(character: char) -> bool {
    '0' <= character <= '9'
}

/// Whether every character is an ASCII decimal digit.
pub open spec fn all_digits(text: Seq<char>) -> bool {
    forall|i: int| 0 <= i < text.len() ==> is_digit(#[trigger] text[i])
}

/// The number that a string of digits stands for.
pub open spec fn digits_value(text: Seq<char>) -> nat
    decreases text.len(),
{
    if text.len() == 0 {
        0
    } else {
        digits_value(text.drop_last()) * 10 + (text.last() as nat - 0x30) as nat
    }
}

/// The digits of a number that is written with an optional sign.
pub open spec fn unsigned_part(text: Seq<char>) -> Seq<char> {
    if text.len() > 0 && (text[0] == '-' || text[0] == '+') {
        text.skip(1)
    } else {
        text
    }
}

/// The number that a text with an optional sign stands for.
pub open spec fn signed_value(text: Seq<char>) -> int {
    if text.len() > 0 && text[0] == '-' {
        -(digits_value(unsigned_part(text)) as int)
    } else {
        digits_value(unsigned_part(text)) as int
    }
}

/// Reads a text as `i64::from_str` does: an optional sign in front of at least
/// one digit, with a value that fits.
pub open spec fn parsed_i64(text: Seq<char>) -> Option<i64> {
    if unsigned_part(text).len() > 0 && all_digits(unsigned_part(text)) && i64::MIN <= signed_value(
        text,
    ) <= i64::MAX {
        Some(signed_value(text) as i64)
    } else {
        None
    }
}

proof fn lemma_digits_grow(text: Seq<char>, count: int)
    requires
        0 <= count <= text.len(),
    ensures
        digits_value(text.take(count)) <= digits_value(text),
    decreases text.len() - count,
{
    if count == text.len() {
        assert(text.take(count) =~= text);
    } else {
        lemma_digits_grow(text, count + 1);
        assert(text.take(count + 1).drop_last() =~= text.take(count));
    }
}

/// The number of a character.
fn code_point(character: char) -> (code: u32)
    ensures
        code as int == character as int,
{
    character as u32
}

/// Reads a decimal number with an optional sign.
pub(crate) fn parse_i64(text: &str) -> (value: Option<i64>)
    ensures
        value == parsed_i64(text@),
{
    let all = characters(text);
    let negative = all.len() > 0 && all[0] == '-';
    let start: usize = if all.len() > 0 && (all[0] == '-' || all[0] == '+') {
        1
    } else {
        0
    };
    let ghost digits = unsigned_part(text@);
    assert(digits =~= all@.skip(start as int));
    if start == all.len() {
        return None;
    }
    let limit: u64 = if negative {
        0x8000_0000_0000_0000
    } else {
        0x7fff_ffff_ffff_ffff
    };
    let mut total: u64 = 0;
    let mut index: usize = start;
    while index < all.len()
        invariant
            start <= index <= all@.len(),
            all@ == text@,
            digits == all@.skip(start as int),
            digits == unsigned_part(text@),
            negative == (text@.len() > 0 && text@[0] == '-'),
            total == digits_value(digits.take(index - start)),
            all_digits(digits.take(index - start)),
            total <= limit,
            limit == (if negative {
                0x8000_0000_0000_0000u64
            } else {
                0x7fff_ffff_ffff_ffffu64
            }),
        decreases all@.len() - index,
    {
        let code: u32 = code_point(all[index]);
        assert(digits[index - start] == all@[index as int]);
        if code < 0x30 || code > 0x39 {
            assert(!is_digit(digits[index - start]));
            return None;
        }
        let next: u128 = total as u128 * 10 + (code - 0x30) as u128;
        proof {
            let longer = digits.take(index + 1 - start);
            assert(longer.drop_last() =~= digits.take(index - start));
            assert(longer.last() == all@[index as int]);
            lemma_digits_grow(digits, index + 1 - start);
            assert forall|i: int| 0 <= i < longer.len() implies is_digit(#[trigger] longer[i]) by {
                assert(longer[i] == digits[i]);
                if i < index - start {
                    assert(longer[i] == digits.take(index - start)[i]);
                    assert(is_digit(digits.take(index - start)[i]));
                } else {
                    assert(longer[i] == all@[index as int]);
                }
            }
        }
        if next > limit as u128 {
            return None;
        }
        total = next as u64;
        index += 1;
    }
    assert(digits.take(index - start) =~= digits);
    if negative {
        if total == 0x8000_0000_0000_0000 {
            Some(i64::MIN)
        } else {
            Some(-(total as i64))
        }
    } else {
        Some(total as i64)
    }
}

/// The digits of an unsigned number, behind the plus sign if there is one.
pub open spec fn plain_digits(text: Seq<char>) -> Seq<char> {
    if text.len() > 0 && text[0] == '+' {
        text.skip(1)
    } else {
        text
    }
}

/// The unsigned number that a text is the decimal notation of.
pub open spec fn parsed_u64(text: Seq<char>) -> Option<u64> {
    let digits = plain_digits(text);
    if digits.len() > 0 && all_digits(digits) && digits_value(digits) <= u64::MAX {
        Some(digits_value(digits) as u64)
    } else {
        None
    }
}

/// Reads an unsigned decimal number.
pub(crate) fn parse_u64(text: &str) -> (value: Option<u64>)
    ensures
        value == parsed_u64(text@),
{
    let all = characters(text);
    let start: usize = if all.len() > 0 && all[0] == '+' {
        1
    } else {
        0
    };
    let ghost digits = plain_digits(text@);
    assert(digits =~= all@.skip(start as int));
    if start == all.len() {
        return None;
    }
    let mut total: u64 = 0;
    let mut index: usize = start;
    while index < all.len()
        invariant
            start <= index <= all@.len(),
            digits == all@.skip(start as int),
            digits == plain_digits(text@),
            total == digits_value(digits.take(index - start)),
            all_digits(digits.take(index - start)),
        decreases all@.len() - index,
    {
        let code: u32 = code_point(all[index]);
        assert(digits[index - start] == all@[index as int]);
        if code < 0x30 || code > 0x39 {
            assert(!is_digit(digits[index - start]));
            return None;
        }
        let next: u128 = total as u128 * 10 + (code - 0x30) as u128;
        proof {
            let longer = digits.take(index + 1 - start);
            assert(longer.drop_last() =~= digits.take(index - start));
            assert(longer.last() == all@[index as int]);
            lemma_digits_grow(digits, index + 1 - start);
            assert forall|i: int| 0 <= i < longer.len() implies is_digit(#[trigger] longer[i]) by {
                if i < index - start {
                    assert(longer[i] == digits.take(index - start)[i]);
                    assert(is_digit(digits.take(index - start)[i]));
                } else {
                    assert(longer[i] == all@[index as int]);
                }
            }
        }
        if next > 0xffff_ffff_ffff_ffff {
            return None;
        }
        total = next as u64;
        index += 1;
    }
    assert(digits.take(index - start) =~= digits);
    Some(total)
}

/// A decimal notation is made of digits, which stand for the number.
pub proof fn lemma_decimal_value(value: nat)
    ensures
        decimal(value).len() > 0,
        all_digits(decimal(value)),
        digits_value(decimal(value)) == value,
    decreases value,
{
    if value < 10 {
        assert(decimal(value).drop_last() =~= Seq::empty());
        assert(digits_value(Seq::<char>::empty()) == 0);
    } else {
        lemma_decimal_value(value / 10);
        assert(decimal(value).drop_last() =~= decimal(value / 10));
        let text = decimal(value);
        assert forall|i: int| 0 <= i < text.len() implies is_digit(#[trigger] text[i]) by {
            if i < text.len() - 1 {
                assert(is_digit(decimal(value / 10)[i]));
            }
        }
    }
}

/// A number is read back from its decimal notation.
pub proof fn law_decimal_round_trip(value: i64)
    ensures
        parsed_i64(signed_decimal(value as int)) == Some(value),
{
    if value < 0 {
        lemma_decimal_value((-value) as nat);
        assert(unsigned_part(signed_decimal(value as int)) =~= decimal((-value) as nat));
    } else {
        lemma_decimal_value(value as nat);
        assert(is_digit(decimal(value as nat)[0]));
        assert(unsigned_part(signed_decimal(value as int)) =~= decimal(value as nat));
    }
}

// ---------------------------------------------------------------------------
// Hexadecimal
// ---------------------------------------------------------------------------

/// The character of a lower-case hexadecimal digit.
pub open spec fn hex_char(digit: int) -> char {
    if digit < 10 {
        (digit + 0x30) as char
    } else {
        (digit - 10 + 0x61) as char
    }
}

/// Bytes in lower-case hexadecimal notation, two digits each.
pub open spec fn hex(bytes: Seq<u8>) -> Seq<char> {
    Seq::new(
        2 * bytes.len(),
        |i: int|
            if i % 2 == 0 {
                hex_char(bytes[i / 2] as int / 16)
            } else {
                hex_char(bytes[i / 2] as int % 16)
            },
    )
}

fn hex_digit(value: u8) -> (character: char)
    requires
        value < 16,
    ensures
        character == hex_char(value as int),
{
    if value < 10 {
        digit(value as u64)
    } else if value == 10 {
        'a'
    } else if value == 11 {
        'b'
    } else if value == 12 {
        'c'
    } else if value == 13 {
        'd'
    } else if value == 14 {
        'e'
    } else {
        'f'
    }
}

/// Writes bytes in lower-case hexadecimal notation.
pub(crate) fn hex_text(bytes: &[u8]) -> (text: String)
    ensures
        text@ == hex(bytes@),
{
    let mut text = String::new();
    let mut index: usize = 0;
    assert(text@ =~= hex(bytes@).take(0));
    while index < bytes.len()
        invariant
            index <= bytes@.len(),
            text@ == hex(bytes@).take(2 * index),
        decreases bytes@.len() - index,
    {
        text.push(hex_digit(bytes[index] / 16));
        text.push(hex_digit(bytes[index] % 16));
        assert(text@ =~= hex(bytes@).take(2 * (index + 1)));
        index += 1;
    }
    assert(hex(bytes@).take(2 * index) =~= hex(bytes@));
    text
}

proof fn lemma_hex_char(left: int, right: int)
    requires
        0 <= left < 16,
        0 <= right < 16,
        hex_char(left) == hex_char(right),
    ensures
        left == right,
{
}

/// Different bytes have different hexadecimal notations.
pub proof fn law_hex_injective(left: Seq<u8>, right: Seq<u8>)
    requires
        hex(left) == hex(right),
    ensures
        left == right,
{
    assert(hex(left).len() == 2 * left.len());
    assert(hex(right).len() == 2 * right.len());
    assert forall|i: int| 0 <= i < left.len() implies left[i] == right[i] by {
        let (high, low) = (2 * i, 2 * i + 1);
        assert(high / 2 == i && high % 2 == 0 && low / 2 == i && low % 2 == 1);
        assert(hex(left)[high] == hex(right)[high]);
        assert(hex(left)[low] == hex(right)[low]);
        assert(hex_char(left[i] as int / 16) == hex(left)[high]);
        assert(hex_char(right[i] as int / 16) == hex(right)[high]);
        assert(hex_char(left[i] as int % 16) == hex(left)[low]);
        assert(hex_char(right[i] as int % 16) == hex(right)[low]);
        lemma_hex_char(left[i] as int / 16, right[i] as int / 16);
        lemma_hex_char(left[i] as int % 16, right[i] as int % 16);
    }
    assert(left =~= right);
}

// ---------------------------------------------------------------------------
// Letters
// ---------------------------------------------------------------------------

/// A character with an ASCII capital letter made small.
pub open spec fn ascii_lower(character: char) -> char {
    if 'A' <= character <= 'Z' {
        (character as int + 0x20) as char
    } else {
        character
    }
}

/// A text with its ASCII capital letters made small.
pub open spec fn ascii_lowered(text: Seq<char>) -> Seq<char> {
    text.map_values(|character: char| ascii_lower(character))
}

/// Makes an ASCII capital letter small.
pub(crate) fn lower_char(character: char) -> (result: char)
    ensures
        result == ascii_lower(character),
{
    let code: u32 = character as u32;
    if 0x41 <= code && code <= 0x5a {
        ((code + 0x20) as u8) as char
    } else {
        character
    }
}

/// Makes the ASCII capital letters of a text small.
pub(crate) fn lower_text(text: &str) -> (result: String)
    ensures
        result@ == ascii_lowered(text@),
{
    let all = characters(text);
    let mut result = String::new();
    let mut index: usize = 0;
    assert(result@ =~= ascii_lowered(text@).take(0));
    while index < all.len()
        invariant
            index <= all@.len(),
            all@ == text@,
            result@ == ascii_lowered(text@).take(index as int),
        decreases all@.len() - index,
    {
        result.push(lower_char(all[index]));
        assert(result@ =~= ascii_lowered(text@).take(index + 1));
        index += 1;
    }
    assert(ascii_lowered(text@).take(index as int) =~= ascii_lowered(text@));
    result
}

/// Whether a character is an ASCII letter or digit.
pub open spec fn is_ascii_alphanumeric(character: char) -> bool {
    'a' <= character <= 'z' || 'A' <= character <= 'Z' || is_digit(character)
}

/// Whether a character is an ASCII letter or digit.
pub(crate) fn ascii_alphanumeric(character: char) -> (result: bool)
    ensures
        result == is_ascii_alphanumeric(character),
{
    let code: u32 = character as u32;
    (0x61 <= code && code <= 0x7a) || (0x41 <= code && code <= 0x5a) || (0x30 <= code && code
        <= 0x39)
}

/// Whether a character may stand in a file name as it is.
pub open spec fn is_component_char(character: char) -> bool {
    is_ascii_alphanumeric(character) || character == '-' || character == '_'
}

/// A text with every character that may not stand in a file name replaced.
pub open spec fn component(text: Seq<char>) -> Seq<char> {
    text.map_values(
        |character: char|
            if is_component_char(character) {
                character
            } else {
                '_'
            },
    )
}

/// Replaces every character that may not stand in a file name.
pub(crate) fn component_text(text: &str) -> (result: String)
    ensures
        result@ == component(text@),
{
    let all = characters(text);
    let mut result = String::new();
    let mut index: usize = 0;
    assert(result@ =~= component(text@).take(0));
    while index < all.len()
        invariant
            index <= all@.len(),
            all@ == text@,
            result@ == component(text@).take(index as int),
        decreases all@.len() - index,
    {
        let character: char = all[index];
        if ascii_alphanumeric(character) || character == '-' || character == '_' {
            result.push(character);
        } else {
            result.push('_');
        }
        assert(result@ =~= component(text@).take(index + 1));
        index += 1;
    }
    assert(component(text@).take(index as int) =~= component(text@));
    result
}

/// A file name component holds only letters, digits, `-` and `_`, and making it
/// one again changes nothing.
pub proof fn law_component_safe(text: Seq<char>)
    ensures
        component(text).len() == text.len(),
        forall|i: int| 0 <= i < text.len() ==> is_component_char(#[trigger] component(text)[i]),
        component(component(text)) == component(text),
{
    assert(component(component(text)) =~= component(text));
}

// ---------------------------------------------------------------------------
// Lists
// ---------------------------------------------------------------------------

/// The parts of a text between the separators.
pub open spec fn split(text: Seq<char>, separator: char) -> Seq<Seq<char>>
    decreases text.len(),
{
    if text.len() == 0 {
        seq![Seq::empty()]
    } else {
        let parts = split(text.drop_last(), separator);
        if text.last() == separator {
            parts.push(Seq::empty())
        } else {
            parts.drop_last().push(parts.last().push(text.last()))
        }
    }
}

/// The texts of a list of strings.
pub open spec fn views(values: Seq<String>) -> Seq<Seq<char>> {
    values.map_values(|value: String| value@)
}

/// Parts a text at the separators.
pub(crate) fn split_text(text: &str, separator: char) -> (parts: Vec<String>)
    ensures
        views(parts@) == split(text@, separator),
        parts@.len() > 0,
{
    let all = characters(text);
    let mut parts: Vec<String> = Vec::new();
    let mut current = String::new();
    let mut index: usize = 0;
    assert(text@.take(0) =~= Seq::empty());
    assert(views(parts@).push(current@) =~= split(text@.take(0), separator));
    while index < all.len()
        invariant
            index <= all@.len(),
            all@ == text@,
            views(parts@).push(current@) == split(text@.take(index as int), separator),
        decreases all@.len() - index,
    {
        let character: char = all[index];
        let ghost before = split(text@.take(index as int), separator);
        let ghost kept = views(parts@);
        assert(before.drop_last() =~= kept && before.last() == current@);
        assert(text@.take(index + 1).drop_last() =~= text@.take(index as int));
        assert(text@.take(index + 1).last() == character);
        if character == separator {
            let ghost finished = current@;
            parts.push(current);
            current = String::new();
            assert(views(parts@) =~= kept.push(finished));
            assert(views(parts@).push(current@) =~= before.push(Seq::empty()));
        } else {
            current.push(character);
        }
        index += 1;
    }
    assert(text@.take(index as int) =~= text@);
    let ghost kept = views(parts@);
    let ghost last = current@;
    parts.push(current);
    assert(views(parts@) =~= kept.push(last));
    parts
}

/// A text without the copies of a character that it ends in.
pub open spec fn without_end(text: Seq<char>, character: char) -> Seq<char>
    decreases text.len(),
{
    if text.len() > 0 && text.last() == character {
        without_end(text.drop_last(), character)
    } else {
        text
    }
}

/// What is left does not end in the character.
pub proof fn lemma_without_end(text: Seq<char>, character: char)
    ensures
        without_end(text, character).len() == 0 || without_end(text, character).last()
            != character,
    decreases text.len(),
{
    if text.len() > 0 && text.last() == character {
        lemma_without_end(text.drop_last(), character);
    }
}

/// Takes the copies of a character off the end of a text.
pub(crate) fn trim_end_char(text: &str, character: char) -> (result: String)
    ensures
        result@ == without_end(text@, character),
{
    let all = characters(text);
    let mut end: usize = all.len();
    assert(text@.take(end as int) =~= text@);
    while end > 0 && all[end - 1] == character
        invariant
            end <= all@.len(),
            all@ == text@,
            without_end(text@, character) == without_end(text@.take(end as int), character),
        decreases end,
    {
        assert(text@.take(end as int).drop_last() =~= text@.take(end - 1));
        end -= 1;
    }
    assert(text@.take(end as int) =~= all@.subrange(0, end as int));
    text_range(all.as_slice(), 0, end)
}

/// Whether a text ends in a character.
pub(crate) fn ends_with_char(text: &str, character: char) -> (result: bool)
    ensures
        result == (text@.len() > 0 && text@.last() == character),
{
    let all = characters(text);
    all.len() > 0 && all[all.len() - 1] == character
}

// ---------------------------------------------------------------------------
// What the operations on texts give
// ---------------------------------------------------------------------------

/// Trimming takes away white space in front and behind, and nothing else.
pub proof fn law_trimming_takes_white_space(text: Seq<char>) -> (start: int)
    ensures
        0 <= start,
        start + trimmed(text).len() <= text.len(),
        trimmed(text) == text.subrange(start, start + trimmed(text).len()),
        forall|i: int| 0 <= i < start ==> is_white_space(#[trigger] text[i]),
        forall|i: int|
            start + trimmed(text).len() <= i < text.len() ==> is_white_space(#[trigger] text[i]),
        trimmed(text).len() > 0 ==> !is_white_space(trimmed(text)[0]) && !is_white_space(
            trimmed(text).last(),
        ),
{
    let start = leading_white_space(text);
    let rest = text.skip(start);
    lemma_trimmed_ends(text);
    lemma_leading_end(text);
    lemma_trailing_end(rest);
    lemma_leading_all(text);
    lemma_trailing_all(rest);
    assert(trimmed(text) =~= text.subrange(start, start + trimmed(text).len()));
    assert forall|i: int| start + trimmed(text).len() <= i < text.len() implies is_white_space(
        #[trigger] text[i],
    ) by {
        assert(rest[i - start] == text[i]);
    }
    start
}

proof fn lemma_leading_all(text: Seq<char>)
    ensures
        forall|i: int| 0 <= i < leading_white_space(text) ==> is_white_space(#[trigger] text[i]),
    decreases text.len(),
{
    if text.len() > 0 && is_white_space(text[0]) {
        let rest = text.skip(1);
        lemma_leading_all(rest);
        lemma_leading_end(rest);
        assert forall|i: int| 0 <= i < leading_white_space(text) implies is_white_space(
            #[trigger] text[i],
        ) by {
            if i > 0 {
                assert(rest[i - 1] == text[i]);
            }
        }
    }
}

proof fn lemma_trailing_all(text: Seq<char>)
    ensures
        forall|i: int|
            text.len() - trailing_white_space(text) <= i < text.len() ==> is_white_space(
                #[trigger] text[i],
            ),
    decreases text.len(),
{
    if text.len() > 0 && is_white_space(text.last()) {
        let rest = text.drop_last();
        lemma_trailing_all(rest);
        lemma_trailing_end(rest);
        assert forall|i: int|
            text.len() - trailing_white_space(text) <= i < text.len() implies is_white_space(
            #[trigger] text[i],
        ) by {
            if i < text.len() - 1 {
                assert(rest[i] == text[i]);
            }
        }
    }
}

/// A text without the separator is one part. The parts of two texts with a separator
/// between them are the parts of the one and then those of the other.
pub proof fn law_split_at_separators(left: Seq<char>, separator: char, right: Seq<char>)
    ensures
        !left.contains(separator) ==> split(left, separator) == seq![left],
        split(left + seq![separator] + right, separator) == split(left, separator) + split(
            right,
            separator,
        ),
        split(left, separator).len() > 0,
        forall|i: int|
            0 <= i < split(left, separator).len() ==> !(#[trigger] split(
                left,
                separator,
            )[i]).contains(separator),
    decreases left.len() + right.len(),
{
    lemma_split_parts(left, separator);
    lemma_split_whole(left, separator);
    lemma_split_parts(right, separator);
    let all = left + seq![separator] + right;
    if right.len() == 0 {
        assert(all.drop_last() =~= left);
        assert(split(all, separator) =~= split(left, separator) + split(right, separator));
    } else {
        let front = right.drop_last();
        law_split_at_separators(left, separator, front);
        lemma_split_parts(front, separator);
        assert(all.drop_last() =~= left + seq![separator] + front);
        assert(all.last() == right.last());
        let parts = split(left, separator) + split(front, separator);
        assert(parts.last() == split(front, separator).last());
        assert(parts.drop_last() =~= split(left, separator) + split(front, separator).drop_last());
        assert(split(all, separator) =~= split(left, separator) + split(right, separator));
    }
}

proof fn lemma_split_parts(text: Seq<char>, separator: char)
    ensures
        split(text, separator).len() > 0,
        forall|i: int|
            0 <= i < split(text, separator).len() ==> !(#[trigger] split(
                text,
                separator,
            )[i]).contains(separator),
    decreases text.len(),
{
    if text.len() > 0 {
        let parts = split(text.drop_last(), separator);
        lemma_split_parts(text.drop_last(), separator);
        let all = split(text, separator);
        assert forall|i: int| 0 <= i < all.len() implies !(#[trigger] all[i]).contains(
            separator,
        ) by {
            if text.last() != separator && i == all.len() - 1 {
                let last = parts[parts.len() - 1];
                assert(!last.contains(separator));
                assert(all[i] =~= last.push(text.last()));
                if all[i].contains(separator) {
                    let k = choose|k: int| 0 <= k < all[i].len() && all[i][k] == separator;
                    assert(k < last.len());
                    assert(last[k] == separator);
                }
            } else if i < parts.len() {
                assert(all[i] == parts[i]);
            }
        }
    }
}

proof fn lemma_split_whole(text: Seq<char>, separator: char)
    ensures
        !text.contains(separator) ==> split(text, separator) == seq![text],
    decreases text.len(),
{
    if !text.contains(separator) {
        if text.len() > 0 {
            let front = text.drop_last();
            if front.contains(separator) {
                let k = choose|k: int| 0 <= k < front.len() && front[k] == separator;
                assert(text[k] == separator);
            }
            assert(text[text.len() - 1] != separator);
            lemma_split_whole(front, separator);
            assert(front.push(text.last()) =~= text);
            assert(split(text, separator) =~= seq![text]);
        } else {
            assert(text =~= Seq::empty());
        }
    }
}

/// A text without a character at its end is the text up to the last run of it.
pub proof fn law_end_is_taken_away(text: Seq<char>, character: char)
    ensures
        without_end(text, character).len() <= text.len(),
        without_end(text, character) == text.take(without_end(text, character).len() as int),
        without_end(text, character).len() > 0 ==> without_end(text, character).last() != character,
        forall|i: int|
            without_end(text, character).len() <= i < text.len() ==> #[trigger] text[i]
                == character,
    decreases text.len(),
{
    if text.len() > 0 && text.last() == character {
        let front = text.drop_last();
        law_end_is_taken_away(front, character);
        assert forall|i: int|
            without_end(text, character).len() <= i < text.len() implies #[trigger] text[i]
            == character by {
            if i < front.len() {
                assert(front[i] == text[i]);
            }
        }
        assert(without_end(text, character) =~= text.take(
            without_end(text, character).len() as int,
        ));
    } else {
        assert(text =~= text.take(text.len() as int));
    }
}

/// A number that is written and read is the number, and stands in no other digits.
pub proof fn law_unsigned_decimal_round_trip(value: u64)
    ensures
        parsed_u64(decimal(value as nat)) == Some(value),
        forall|i: int| 0 <= i < decimal(value as nat).len() ==> '0' <= #[trigger] decimal(
            value as nat,
        )[i] <= '9',
        value > 0 ==> decimal(value as nat)[0] != '0',
{
    lemma_decimal_value(value as nat);
    lemma_no_leading_zero(value as nat);
    let text = decimal(value as nat);
    assert(is_digit(text[0]));
    assert(plain_digits(text) == text);
    assert forall|i: int| 0 <= i < text.len() implies '0' <= #[trigger] text[i] <= '9' by {
        assert(is_digit(text[i]));
    }
}

proof fn lemma_no_leading_zero(value: nat)
    ensures
        decimal(value).len() > 0,
        value > 0 ==> decimal(value)[0] != '0',
    decreases value,
{
    if value >= 10 {
        lemma_no_leading_zero(value / 10);
    }
}

/// The value of a hexadecimal digit in lower case.
pub open spec fn hex_value(digit: char) -> int {
    if '0' <= digit <= '9' {
        digit as int - '0' as int
    } else if 'a' <= digit <= 'f' {
        digit as int - 'a' as int + 10
    } else {
        -1
    }
}

/// Bytes in hexadecimal are two digits in lower case each, the higher one first.
pub proof fn law_hex_digits(bytes: Seq<u8>)
    ensures
        hex(bytes).len() == 2 * bytes.len(),
        forall|i: int|
            #![trigger bytes[i]]
            0 <= i < bytes.len() ==> 0 <= hex_value(hex(bytes)[2 * i]) && 0 <= hex_value(
                hex(bytes)[2 * i + 1],
            ) && bytes[i] == 16 * hex_value(hex(bytes)[2 * i]) + hex_value(hex(bytes)[2 * i + 1]),
{
    assert forall|i: int|
        #![trigger bytes[i]]
        0 <= i < bytes.len() implies 0 <= hex_value(hex(bytes)[2 * i]) && 0 <= hex_value(
        hex(bytes)[2 * i + 1],
    ) && bytes[i] == 16 * hex_value(hex(bytes)[2 * i]) + hex_value(hex(bytes)[2 * i + 1]) by {
        assert((2 * i) / 2 == i && (2 * i) % 2 == 0);
        assert((2 * i + 1) / 2 == i && (2 * i + 1) % 2 == 1);
    }
}

/// A text in lower case has every capital letter from A to Z made small, and every other
/// character as it is.
pub proof fn law_lower_case_changes_capitals(text: Seq<char>, i: int)
    requires
        0 <= i < text.len(),
    ensures
        ascii_lowered(text).len() == text.len(),
        'A' <= text[i] <= 'Z' ==> ascii_lowered(text)[i] as int - 'a' as int == text[i] as int
            - 'A' as int,
        !('A' <= text[i] <= 'Z') ==> ascii_lowered(text)[i] == text[i],
{
}

/// A text as part of a path keeps its letters, digits, hyphens and underscores, and has
/// an underscore for everything else.
pub proof fn law_component_keeps_plain_characters(text: Seq<char>, i: int)
    requires
        0 <= i < text.len(),
    ensures
        'a' <= text[i] <= 'z' || 'A' <= text[i] <= 'Z' || '0' <= text[i] <= '9' || text[i] == '-'
            || text[i] == '_' ==> component(text)[i] == text[i],
        !('a' <= text[i] <= 'z' || 'A' <= text[i] <= 'Z' || '0' <= text[i] <= '9' || text[i] == '-'
            || text[i] == '_') ==> component(text)[i] == '_',
{
}

/// White space is what Unicode calls so, and no other character.
pub proof fn law_white_space_is_unicodes(character: char)
    ensures
        is_white_space(character) <==> {
            let code = character as u32;
            ||| 9 <= code <= 13
            ||| code == 32
            ||| code == 133
            ||| code == 160
            ||| code == 5760
            ||| 8192 <= code <= 8202
            ||| code == 8232
            ||| code == 8233
            ||| code == 8239
            ||| code == 8287
            ||| code == 12288
        },
{
}

} // verus!
