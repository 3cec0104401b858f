//! Texts and the bytes that encode them.

use vstd::prelude::*;
use vstd::utf8::{encode_utf8, valid_utf8};

verus! {

/// Calls `std::str::from_utf8`. Claimed of it: it returns a text exactly if the bytes are valid
/// UTF-8, and the bytes encode that text.
#[verifier::external_body]
pub(crate) fn utf8_text<'a>(bytes: &'a [u8]) -> (text: Option<&'a str>)
    ensures
        text is Some <==> valid_utf8(bytes@),
        text is Some ==> encode_utf8(text->0@) == bytes@,
{
    std::str::from_utf8(bytes).ok()
}

/// The Base64 text of bytes, in the standard alphabet and with padding.
pub uninterp spec fn base64_text(bytes: Seq<u8>) -> Seq<char>;

/// Calls `base64::Engine::encode` of the standard engine. Claimed of it: the text depends on the
/// bytes alone.
#[verifier::external_body]
pub(crate) fn base64_encode(bytes: &[u8]) -> (text: String)
    ensures
        text@ == base64_text(bytes@),
{
    base64::Engine::encode(&base64::engine::general_purpose::STANDARD, bytes)
}

/// The view of an optional text.
pub open spec fn optional_view(text: Option<String>) -> Option<Seq<char>> {
    match text {
        Some(text) => Some(text@),
        None => None,
    }
}

/// The views of texts.
pub open spec fn text_views(texts: Seq<String>) -> Seq<Seq<char>> {
    Seq::new(texts.len(), |i: int| texts[i]@)
}

/// The characters of a text.
pub fn chars_of(text: &str) -> (r: Vec<char>)
    ensures
        r@ == text@,
{
    let mut chars: Vec<char> = Vec::new();
    for c in iter: text.chars()
        invariant
            iter.seq() == text@,
            chars@ == text@.subrange(0, iter.index() as int),
    {
        let ghost at = iter.index() as int;
        chars.push(c);
        assert(chars@ =~= text@.subrange(0, at + 1));
    }
    assert(chars@ =~= text@);
    chars
}

/// Calls `String::from_iter` for characters. Claimed of it: the text has these characters in this
/// order.
#[verifier::external_body]
pub(crate) fn text_of(chars: &Vec<char>) -> (text: String)
    ensures
        text@ == chars@,
{
    String::from_iter(chars.iter())
}

/// The character of a decimal digit.
pub open spec fn digit_char(digit: nat) -> char {
    (48 + digit) as char
}

/// The decimal numeral of a number.
pub open spec fn decimal_text(number: nat) -> Seq<char>
    decreases number,
{
    if number < 10 {
        seq![digit_char(number)]
    } else {
        decimal_text(number / 10).push(digit_char(number % 10))
    }
}

/// The decimal numeral of a number with its sign.
pub open spec fn signed_text(number: int) -> Seq<char> {
    if number < 0 {
        seq!['-'] + decimal_text((-number) as nat)
    } else {
        decimal_text(number as nat)
    }
}

fn decimal_chars(number: u64) -> (r: Vec<char>)
    ensures
        r@ == decimal_text(number as nat),
    decreases number,
{
    let digit: u64 = number % 10;
    let last: char = match digit {
        0 => '0',
        1 => '1',
        2 => '2',
        3 => '3',
        4 => '4',
        5 => '5',
        6 => '6',
        7 => '7',
        8 => '8',
        _ => '9',
    };
    let mut chars: Vec<char> = if number < 10 {
        Vec::new()
    } else {
        decimal_chars(number / 10)
    };
    chars.push(last);
    assert(number < 10 ==> chars@ =~= decimal_text(number as nat));
    chars
}

/// The decimal numeral of a number.
pub fn decimal(number: u64) -> (r: String)
    ensures
        r@ == decimal_text(number as nat),
{
    text_of(&decimal_chars(number))
}

/// The decimal numeral of a number with its sign.
pub fn signed_decimal(number: i64) -> (r: String)
    ensures
        r@ == signed_text(number as int),
{
    if number >= 0 {
        return decimal(number as u64);
    }
    let magnitude: u64 = if number == i64::MIN {
        9_223_372_036_854_775_808
    } else {
        (-number) as u64
    };
    let mut chars: Vec<char> = Vec::new();
    chars.push('-');
    let digits: Vec<char> = decimal_chars(magnitude);
    let mut index: usize = 0;
    while index < digits.len()
        invariant
            index <= digits@.len(),
            chars@ == seq!['-'] + digits@.subrange(0, index as int),
        decreases digits@.len() - index,
    {
        chars.push(digits[index]);
        assert(chars@ =~= seq!['-'] + digits@.subrange(0, index + 1));
        index = index + 1;
    }
    assert(digits@.subrange(0, digits@.len() as int) =~= digits@);
    text_of(&chars)
}

/// Whether a character occurs in a text.
pub open spec fn contains_char(text: Seq<char>, c: char) -> bool {
    exists|i: int| 0 <= i < text.len() && #[trigger] text[i] == c
}

/// A text as it is shown in messages: quoted, with what cannot be printed escaped.
pub uninterp spec fn text_debug(text: Seq<char>) -> Seq<char>;

/// Calls the `Debug` of `str`. Claimed of it: what is shown depends on the text alone.
#[verifier::external_body]
pub(crate) fn debug_text(text: &str) -> (shown: String)
    ensures
        shown@ == text_debug(text@),
{
    format!("{text:?}")
}

/// Whether, from `at` on, one text comes before another in the order of characters.
pub open spec fn text_precedes(left: Seq<char>, right: Seq<char>, at: int) -> bool
    decreases left.len() - at,
{
    if !(0 <= at < right.len()) {
        false
    } else if at >= left.len() {
        true
    } else if left[at] != right[at] {
        left[at] < right[at]
    } else {
        text_precedes(left, right, at + 1)
    }
}

/// Whether one text comes before another in the order of characters.
pub fn text_before(left: &str, right: &str) -> (r: bool)
    ensures
        r == text_precedes(left@, right@, 0),
{
    let left_chars: Vec<char> = chars_of(left);
    let right_chars: Vec<char> = chars_of(right);
    let mut at: usize = 0;
    while at < left_chars.len() && at < right_chars.len()
        invariant
            left_chars@ == left@,
            right_chars@ == right@,
            at <= left@.len(),
            at <= right@.len(),
            text_precedes(left@, right@, 0) == text_precedes(left@, right@, at as int),
        decreases left@.len() - at,
    {
        if left_chars[at] != right_chars[at] {
            return left_chars[at] < right_chars[at];
        }
        at = at + 1;
    }
    at < right_chars.len()
}

/// Whether two texts agree before `at`, where the first of them ends or has the lesser character.
pub open spec fn differ_at(left: Seq<char>, right: Seq<char>, at: int) -> bool {
    &&& 0 <= at <= left.len() && at < right.len()
    &&& forall|i: int| 0 <= i < at ==> left[i] == right[i]
    &&& at == left.len() || left[at] < right[at]
}

/// One text comes before another exactly if it is the beginning of it, or has the lesser character
/// where they first differ.
pub proof fn texts_are_ordered_by_their_first_difference(left: Seq<char>, right: Seq<char>)
    ensures
        text_precedes(left, right, 0) <==> exists|at: int| #[trigger] differ_at(left, right, at),
{
    lemma_first_difference(left, right, 0);
}

proof fn lemma_first_difference(left: Seq<char>, right: Seq<char>, from: int)
    requires
        0 <= from <= left.len(),
        from <= right.len(),
        forall|i: int| 0 <= i < from ==> left[i] == right[i],
    ensures
        text_precedes(left, right, from) <==> exists|at: int| #[trigger]
            differ_at(left, right, at),
    decreases left.len() - from,
{
    if from < right.len() {
        if from >= left.len() || left[from] != right[from] {
            assert(text_precedes(left, right, from) <==> differ_at(left, right, from));
            assert forall|at: int| #[trigger] differ_at(left, right, at) implies at == from by {
                if at > from {
                    assert(left[from] == right[from]);
                }
            }
        } else {
            lemma_first_difference(left, right, from + 1);
        }
    }
}

/// The order of texts is total.
pub proof fn the_order_of_texts_is_total(left: Seq<char>, middle: Seq<char>, right: Seq<char>)
    ensures
        !text_precedes(left, left, 0),
        !(text_precedes(left, right, 0) && text_precedes(right, left, 0)),
        left == right || text_precedes(left, right, 0) || text_precedes(right, left, 0),
        text_precedes(left, middle, 0) && text_precedes(middle, right, 0) ==> text_precedes(
            left,
            right,
            0,
        ),
{
    lemma_total(left, left, left, 0);
    lemma_total(left, middle, right, 0);
}

proof fn lemma_total(left: Seq<char>, middle: Seq<char>, right: Seq<char>, at: int)
    requires
        0 <= at <= left.len(),
        at <= middle.len(),
        at <= right.len(),
    ensures
        !(text_precedes(left, right, at) && text_precedes(right, left, at)),
        text_precedes(left, middle, at) && text_precedes(middle, right, at) ==> text_precedes(
            left,
            right,
            at,
        ),
        left == right ==> !text_precedes(left, right, at),
        (forall|i: int| 0 <= i < at ==> left[i] == right[i]) ==> left == right || text_precedes(
            left,
            right,
            at,
        ) || text_precedes(right, left, at),
    decreases left.len() - at,
{
    if at < left.len() && at < middle.len() && at < right.len() {
        lemma_total(left, middle, right, at + 1);
    } else if at < left.len() && at < right.len() {
        lemma_total(left, left, right, at + 1);
    }
    if at == left.len() && at == right.len() && (forall|i: int|
        0 <= i < at ==> left[i] == right[i]) {
        assert(left =~= right);
    }
}

/// A numeral ends with the last digit of its number, and before that stands the numeral of what is
/// left of the number without that digit.
pub proof fn numerals_spell_their_number(number: nat, digit: nat)
    requires
        digit < 10,
    ensures
        decimal_text(digit).len() == 1,
        decimal_text(digit)[0] as int == '0' as int + digit,
        number > 0 ==> decimal_text(number * 10 + digit) == decimal_text(number) + decimal_text(
            digit,
        ),
        number > 0 ==> signed_text(-(number as int)) == seq!['-'] + decimal_text(number),
        signed_text(number as int) == decimal_text(number),
{
    if number > 0 {
        let whole = number * 10 + digit;
        assert(whole / 10 == number);
        assert(whole % 10 == digit);
        assert(decimal_text(whole) =~= decimal_text(number) + decimal_text(digit));
    }
}

} // verus!
