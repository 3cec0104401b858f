//! Tokens of a query.

use vstd::prelude::*;
use vstd::string::*;

use crate::decimal::{
    decimal_below, digits_end, float64_is_finite, integer_of, is_digit, parse_u64, scan_digits,
    FLOAT64_LIMIT,
};
use crate::json::{decode_string, json_string};
use crate::language::span::Span;
use crate::text::{decimal, decimal_text, text_of};

verus! {

/// A token.
#[derive(Clone, Debug, PartialEq, Eq)]
pub enum Token {
    Error,
    KeywordSource,
    KeywordFilter,
    KeywordProject,
    KeywordSort,
    KeywordTake,
    KeywordSummarize,
    KeywordSecond,
    KeywordMinute,
    KeywordHour,
    KeywordDay,
    KeywordAnd,
    KeywordOr,
    KeywordNot,
    KeywordTrue,
    KeywordFalse,
    KeywordNull,
    KeywordNow,
    KeywordStartInclusive,
    KeywordEndExclusive,
    KeywordBy,
    KeywordAs,
    KeywordCast,
    KeywordTryCast,
    KeywordRest,
    KeywordRestExists,
    KeywordCount,
    KeywordSum,
    KeywordMin,
    KeywordMax,
    KeywordAvg,
    KeywordBool,
    KeywordInt32,
    KeywordInt64,
    KeywordUInt32,
    KeywordUInt64,
    KeywordFloat32,
    KeywordFloat64,
    KeywordUtf8,
    KeywordDatetime,
    KeywordEid,
    KeywordJson,
    Pipe,
    LeftParenthesis,
    RightParenthesis,
    Comma,
    At,
    OperatorAdd,
    OperatorSubtract,
    OperatorMultiply,
    OperatorDivide,
    OperatorEqual,
    OperatorNotEqual,
    OperatorGreaterThanOrEqual,
    OperatorGreaterThan,
    OperatorLessThanOrEqual,
    OperatorLessThan,
    OperatorAssign,
    FloatingPoint(String),
    Integer(u64),
    StringLiteral(String),
    QuotedIdentifier(String),
    SystemIdentifier(String),
    Identifier(String),
}

/// What a token is.
pub enum Lexed {
    Error,
    Fixed(Token),
    FloatingPoint(Seq<char>),
    Integer(u64),
    StringLiteral(Seq<char>),
    QuotedIdentifier(Seq<char>),
    SystemIdentifier(Seq<char>),
    Identifier(Seq<char>),
}

impl View for Token {
    type V = Lexed;

    open spec fn view(&self) -> Lexed {
        match self {
            Token::Error => Lexed::Error,
            Token::FloatingPoint(text) => Lexed::FloatingPoint(text@),
            Token::Integer(value) => Lexed::Integer(*value),
            Token::StringLiteral(text) => Lexed::StringLiteral(text@),
            Token::QuotedIdentifier(text) => Lexed::QuotedIdentifier(text@),
            Token::SystemIdentifier(text) => Lexed::SystemIdentifier(text@),
            Token::Identifier(text) => Lexed::Identifier(text@),
            token => Lexed::Fixed(*token),
        }
    }
}

impl Token {
    /// How a token with a fixed spelling is spelled.
    pub open spec fn spelling(self) -> Seq<char> {
        match self {
            Token::KeywordSource => "source"@,
            Token::KeywordFilter => "filter"@,
            Token::KeywordProject => "project"@,
            Token::KeywordSort => "sort"@,
            Token::KeywordTake => "take"@,
            Token::KeywordSummarize => "summarize"@,
            Token::KeywordSecond => "s"@,
            Token::KeywordMinute => "m"@,
            Token::KeywordHour => "h"@,
            Token::KeywordDay => "d"@,
            Token::KeywordAnd => "and"@,
            Token::KeywordOr => "or"@,
            Token::KeywordNot => "not"@,
            Token::KeywordTrue => "true"@,
            Token::KeywordFalse => "false"@,
            Token::KeywordNull => "null"@,
            Token::KeywordNow => "now"@,
            Token::KeywordStartInclusive => "start_inclusive"@,
            Token::KeywordEndExclusive => "end_exclusive"@,
            Token::KeywordBy => "by"@,
            Token::KeywordAs => "as"@,
            Token::KeywordCast => "cast"@,
            Token::KeywordTryCast => "try_cast"@,
            Token::KeywordRest => "rest"@,
            Token::KeywordRestExists => "rest_exists"@,
            Token::KeywordCount => "count"@,
            Token::KeywordSum => "sum"@,
            Token::KeywordMin => "min"@,
            Token::KeywordMax => "max"@,
            Token::KeywordAvg => "avg"@,
            Token::KeywordBool => "bool"@,
            Token::KeywordInt32 => "int32"@,
            Token::KeywordInt64 => "int64"@,
            Token::KeywordUInt32 => "uint32"@,
            Token::KeywordUInt64 => "uint64"@,
            Token::KeywordFloat32 => "float32"@,
            Token::KeywordFloat64 => "float64"@,
            Token::KeywordUtf8 => "utf8"@,
            Token::KeywordDatetime => "datetime"@,
            Token::KeywordEid => "eid"@,
            Token::KeywordJson => "json"@,
            Token::Pipe => "|"@,
            Token::LeftParenthesis => "("@,
            Token::RightParenthesis => ")"@,
            Token::Comma => ","@,
            Token::At => "@"@,
            Token::OperatorAdd => "+"@,
            Token::OperatorSubtract => "-"@,
            Token::OperatorMultiply => "*"@,
            Token::OperatorDivide => "/"@,
            Token::OperatorEqual => "=="@,
            Token::OperatorNotEqual => "!="@,
            Token::OperatorGreaterThanOrEqual => ">="@,
            Token::OperatorGreaterThan => ">"@,
            Token::OperatorLessThanOrEqual => "<="@,
            Token::OperatorLessThan => "<"@,
            Token::OperatorAssign => "="@,
            _ => "<dynamic token>"@,
        }
    }

    pub fn fixed_spelling(&self) -> (r: &'static str)
        ensures
            r@ == self.spelling(),
    {
        match self {
            Token::KeywordSource => "source",
            Token::KeywordFilter => "filter",
            Token::KeywordProject => "project",
            Token::KeywordSort => "sort",
            Token::KeywordTake => "take",
            Token::KeywordSummarize => "summarize",
            Token::KeywordSecond => "s",
            Token::KeywordMinute => "m",
            Token::KeywordHour => "h",
            Token::KeywordDay => "d",
            Token::KeywordAnd => "and",
            Token::KeywordOr => "or",
            Token::KeywordNot => "not",
            Token::KeywordTrue => "true",
            Token::KeywordFalse => "false",
            Token::KeywordNull => "null",
            Token::KeywordNow => "now",
            Token::KeywordStartInclusive => "start_inclusive",
            Token::KeywordEndExclusive => "end_exclusive",
            Token::KeywordBy => "by",
            Token::KeywordAs => "as",
            Token::KeywordCast => "cast",
            Token::KeywordTryCast => "try_cast",
            Token::KeywordRest => "rest",
            Token::KeywordRestExists => "rest_exists",
            Token::KeywordCount => "count",
            Token::KeywordSum => "sum",
            Token::KeywordMin => "min",
            Token::KeywordMax => "max",
            Token::KeywordAvg => "avg",
            Token::KeywordBool => "bool",
            Token::KeywordInt32 => "int32",
            Token::KeywordInt64 => "int64",
            Token::KeywordUInt32 => "uint32",
            Token::KeywordUInt64 => "uint64",
            Token::KeywordFloat32 => "float32",
            Token::KeywordFloat64 => "float64",
            Token::KeywordUtf8 => "utf8",
            Token::KeywordDatetime => "datetime",
            Token::KeywordEid => "eid",
            Token::KeywordJson => "json",
            Token::Pipe => "|",
            Token::LeftParenthesis => "(",
            Token::RightParenthesis => ")",
            Token::Comma => ",",
            Token::At => "@",
            Token::OperatorAdd => "+",
            Token::OperatorSubtract => "-",
            Token::OperatorMultiply => "*",
            Token::OperatorDivide => "/",
            Token::OperatorEqual => "==",
            Token::OperatorNotEqual => "!=",
            Token::OperatorGreaterThanOrEqual => ">=",
            Token::OperatorGreaterThan => ">",
            Token::OperatorLessThanOrEqual => "<=",
            Token::OperatorLessThan => "<",
            Token::OperatorAssign => "=",
            _ => "<dynamic token>",
        }
    }

    /// How a token is shown.
    pub open spec fn shown(self) -> Seq<char> {
        match self {
            Token::Error => "<invalid token>"@,
            Token::FloatingPoint(text) => text@,
            Token::QuotedIdentifier(text) => text@,
            Token::SystemIdentifier(text) => text@,
            Token::Identifier(text) => text@,
            Token::Integer(value) => decimal_text(value as nat),
            Token::StringLiteral(_) => "<string literal>"@,
            token => token.spelling(),
        }
    }

    pub fn to_string(&self) -> (r: String)
        ensures
            r@ == self.shown(),
    {
        match self {
            Token::Error => "<invalid token>".to_owned(),
            Token::FloatingPoint(text) => text.clone(),
            Token::QuotedIdentifier(text) => text.clone(),
            Token::SystemIdentifier(text) => text.clone(),
            Token::Identifier(text) => text.clone(),
            Token::Integer(value) => decimal(*value),
            Token::StringLiteral(_) => "<string literal>".to_owned(),
            token => token.fixed_spelling().to_owned(),
        }
    }
}

/// The keyword with this spelling.
pub open spec fn keyword_of(word: Seq<char>) -> Option<Token> {
    if word == "source"@ {
        Some(Token::KeywordSource)
    } else if word == "filter"@ {
        Some(Token::KeywordFilter)
    } else if word == "project"@ {
        Some(Token::KeywordProject)
    } else if word == "sort"@ {
        Some(Token::KeywordSort)
    } else if word == "take"@ {
        Some(Token::KeywordTake)
    } else if word == "summarize"@ {
        Some(Token::KeywordSummarize)
    } else if word == "s"@ {
        Some(Token::KeywordSecond)
    } else if word == "m"@ {
        Some(Token::KeywordMinute)
    } else if word == "h"@ {
        Some(Token::KeywordHour)
    } else if word == "d"@ {
        Some(Token::KeywordDay)
    } else if word == "and"@ {
        Some(Token::KeywordAnd)
    } else if word == "or"@ {
        Some(Token::KeywordOr)
    } else if word == "not"@ {
        Some(Token::KeywordNot)
    } else if word == "true"@ {
        Some(Token::KeywordTrue)
    } else if word == "false"@ {
        Some(Token::KeywordFalse)
    } else if word == "null"@ {
        Some(Token::KeywordNull)
    } else if word == "now"@ {
        Some(Token::KeywordNow)
    } else if word == "start_inclusive"@ {
        Some(Token::KeywordStartInclusive)
    } else if word == "end_exclusive"@ {
        Some(Token::KeywordEndExclusive)
    } else if word == "by"@ {
        Some(Token::KeywordBy)
    } else if word == "as"@ {
        Some(Token::KeywordAs)
    } else if word == "cast"@ {
        Some(Token::KeywordCast)
    } else if word == "try_cast"@ {
        Some(Token::KeywordTryCast)
    } else if word == "rest"@ {
        Some(Token::KeywordRest)
    } else if word == "rest_exists"@ {
        Some(Token::KeywordRestExists)
    } else if word == "count"@ {
        Some(Token::KeywordCount)
    } else if word == "sum"@ {
        Some(Token::KeywordSum)
    } else if word == "min"@ {
        Some(Token::KeywordMin)
    } else if word == "max"@ {
        Some(Token::KeywordMax)
    } else if word == "avg"@ {
        Some(Token::KeywordAvg)
    } else if word == "bool"@ {
        Some(Token::KeywordBool)
    } else if word == "int32"@ {
        Some(Token::KeywordInt32)
    } else if word == "int64"@ {
        Some(Token::KeywordInt64)
    } else if word == "uint32"@ {
        Some(Token::KeywordUInt32)
    } else if word == "uint64"@ {
        Some(Token::KeywordUInt64)
    } else if word == "float32"@ {
        Some(Token::KeywordFloat32)
    } else if word == "float64"@ {
        Some(Token::KeywordFloat64)
    } else if word == "utf8"@ {
        Some(Token::KeywordUtf8)
    } else if word == "datetime"@ {
        Some(Token::KeywordDatetime)
    } else if word == "eid"@ {
        Some(Token::KeywordEid)
    } else if word == "json"@ {
        Some(Token::KeywordJson)
    } else {
        None
    }
}

/// A keyword is shown as it is spelled.
pub proof fn keywords_are_shown_as_spelled(word: Seq<char>)
    ensures
        keyword_of(word) matches Some(token) ==> token.shown() == word,
{
}

fn is_word(word: &String, spelling: &str) -> (r: bool)
    ensures
        r == (word@ == spelling@),
{
    *word == spelling.to_owned()
}

fn find_keyword(word: &String) -> (r: Option<Token>)
    ensures
        r == keyword_of(word@),
{
    if is_word(word, "source") {
        Some(Token::KeywordSource)
    } else if is_word(word, "filter") {
        Some(Token::KeywordFilter)
    } else if is_word(word, "project") {
        Some(Token::KeywordProject)
    } else if is_word(word, "sort") {
        Some(Token::KeywordSort)
    } else if is_word(word, "take") {
        Some(Token::KeywordTake)
    } else if is_word(word, "summarize") {
        Some(Token::KeywordSummarize)
    } else if is_word(word, "s") {
        Some(Token::KeywordSecond)
    } else if is_word(word, "m") {
        Some(Token::KeywordMinute)
    } else if is_word(word, "h") {
        Some(Token::KeywordHour)
    } else if is_word(word, "d") {
        Some(Token::KeywordDay)
    } else if is_word(word, "and") {
        Some(Token::KeywordAnd)
    } else if is_word(word, "or") {
        Some(Token::KeywordOr)
    } else if is_word(word, "not") {
        Some(Token::KeywordNot)
    } else if is_word(word, "true") {
        Some(Token::KeywordTrue)
    } else if is_word(word, "false") {
        Some(Token::KeywordFalse)
    } else if is_word(word, "null") {
        Some(Token::KeywordNull)
    } else if is_word(word, "now") {
        Some(Token::KeywordNow)
    } else if is_word(word, "start_inclusive") {
        Some(Token::KeywordStartInclusive)
    } else if is_word(word, "end_exclusive") {
        Some(Token::KeywordEndExclusive)
    } else if is_word(word, "by") {
        Some(Token::KeywordBy)
    } else if is_word(word, "as") {
        Some(Token::KeywordAs)
    } else if is_word(word, "cast") {
        Some(Token::KeywordCast)
    } else if is_word(word, "try_cast") {
        Some(Token::KeywordTryCast)
    } else if is_word(word, "rest") {
        Some(Token::KeywordRest)
    } else if is_word(word, "rest_exists") {
        Some(Token::KeywordRestExists)
    } else if is_word(word, "count") {
        Some(Token::KeywordCount)
    } else if is_word(word, "sum") {
        Some(Token::KeywordSum)
    } else if is_word(word, "min") {
        Some(Token::KeywordMin)
    } else if is_word(word, "max") {
        Some(Token::KeywordMax)
    } else if is_word(word, "avg") {
        Some(Token::KeywordAvg)
    } else if is_word(word, "bool") {
        Some(Token::KeywordBool)
    } else if is_word(word, "int32") {
        Some(Token::KeywordInt32)
    } else if is_word(word, "int64") {
        Some(Token::KeywordInt64)
    } else if is_word(word, "uint32") {
        Some(Token::KeywordUInt32)
    } else if is_word(word, "uint64") {
        Some(Token::KeywordUInt64)
    } else if is_word(word, "float32") {
        Some(Token::KeywordFloat32)
    } else if is_word(word, "float64") {
        Some(Token::KeywordFloat64)
    } else if is_word(word, "utf8") {
        Some(Token::KeywordUtf8)
    } else if is_word(word, "datetime") {
        Some(Token::KeywordDatetime)
    } else if is_word(word, "eid") {
        Some(Token::KeywordEid)
    } else if is_word(word, "json") {
        Some(Token::KeywordJson)
    } else {
        None
    }
}

/// The characters of ASCII bytes.
pub open spec fn ascii_text(bytes: Seq<u8>) -> Seq<char> {
    Seq::new(bytes.len(), |i: int| bytes[i] as char)
}

fn read_ascii(bytes: &[u8], start: usize, end: usize) -> (r: String)
    requires
        start <= end <= bytes@.len(),
    ensures
        r@ == ascii_text(bytes@.subrange(start as int, end as int)),
{
    let mut chars: Vec<char> = Vec::new();
    let mut index: usize = start;
    while index < end
        invariant
            start <= index <= end <= bytes@.len(),
            chars@ == ascii_text(bytes@.subrange(start as int, index as int)),
        decreases end - index,
    {
        chars.push(bytes[index] as char);
        index = index + 1;
        assert(chars@ =~= ascii_text(bytes@.subrange(start as int, index as int)));
    }
    text_of(&chars)
}

pub open spec fn is_space(byte: u8) -> bool {
    byte == 32 || byte == 9 || byte == 12 || byte == 13 || byte == 10
}

/// Whether a name can begin with a byte.
pub open spec fn is_name_start(byte: u8) -> bool {
    65 <= byte <= 90 || 97 <= byte <= 122 || byte == 95
}

/// Whether a name can go on with a byte.
pub open spec fn is_name_part(byte: u8) -> bool {
    is_name_start(byte) || is_digit(byte)
}

pub open spec fn is_hex_digit(byte: u8) -> bool {
    is_digit(byte) || 65 <= byte <= 70 || 97 <= byte <= 102
}

/// Where the space from `at` on ends.
pub open spec fn space_end(bytes: Seq<u8>, at: int) -> int
    decreases bytes.len() - at,
{
    if 0 <= at < bytes.len() && is_space(bytes[at]) {
        space_end(bytes, at + 1)
    } else {
        at
    }
}

/// Where the name from `at` on ends.
pub open spec fn name_end(bytes: Seq<u8>, at: int) -> int
    decreases bytes.len() - at,
{
    if 0 <= at < bytes.len() && is_name_part(bytes[at]) {
        name_end(bytes, at + 1)
    } else {
        at
    }
}

pub open spec fn byte_is(bytes: Seq<u8>, at: int, byte: u8) -> bool {
    0 <= at < bytes.len() && bytes[at] == byte
}

pub open spec fn digit_follows(bytes: Seq<u8>, at: int) -> bool {
    0 <= at < bytes.len() && is_digit(bytes[at])
}

/// Where the exponent from `at` on ends, if there is one.
pub open spec fn exponent_end(bytes: Seq<u8>, at: int) -> Option<int> {
    if byte_is(bytes, at, 101) || byte_is(bytes, at, 69) {
        let digits = if byte_is(bytes, at + 1, 43) || byte_is(bytes, at + 1, 45) {
            at + 2
        } else {
            at + 1
        };
        if digit_follows(bytes, digits) {
            Some(digits_end(bytes, digits))
        } else {
            None
        }
    } else {
        None
    }
}

/// Where the numeral with a fraction or an exponent from `at` on ends, if there is one. Its whole
/// part has no needless zero.
pub open spec fn floating_end(bytes: Seq<u8>, at: int) -> Option<int> {
    let whole = digits_end(bytes, at);
    if byte_is(bytes, at, 48) && whole != at + 1 {
        None
    } else if byte_is(bytes, whole, 46) && digit_follows(bytes, whole + 1) {
        let fraction = digits_end(bytes, whole + 1);
        match exponent_end(bytes, fraction) {
            Some(end) => Some(end),
            None => Some(fraction),
        }
    } else {
        exponent_end(bytes, whole)
    }
}

/// Whether an escape letter stands alone.
pub open spec fn is_escape(byte: u8) -> bool {
    byte == 34 || byte == 92 || byte == 47 || byte == 98 || byte == 102 || byte == 110 || byte
        == 114 || byte == 116
}

pub open spec fn hex_follows(bytes: Seq<u8>, at: int) -> bool {
    0 <= at && at + 4 <= bytes.len() && is_hex_digit(bytes[at]) && is_hex_digit(bytes[at + 1])
        && is_hex_digit(bytes[at + 2]) && is_hex_digit(bytes[at + 3])
}

/// Where the string whose content goes on at `at` ends, if it does.
pub open spec fn string_close(bytes: Seq<u8>, at: int) -> Option<int>
    decreases bytes.len() - at,
{
    if !(0 <= at < bytes.len()) {
        None
    } else if bytes[at] == 34 {
        Some(at + 1)
    } else if bytes[at] == 92 {
        if at + 1 < bytes.len() && is_escape(bytes[at + 1]) {
            string_close(bytes, at + 2)
        } else if byte_is(bytes, at + 1, 117) && hex_follows(bytes, at + 2) {
            string_close(bytes, at + 6)
        } else {
            None
        }
    } else if bytes[at] < 32 {
        None
    } else {
        string_close(bytes, at + 1)
    }
}

/// Where the character that begins at `at` ends.
pub open spec fn char_end(bytes: Seq<u8>, at: int) -> int {
    let width = if bytes[at] < 128 {
        1int
    } else if bytes[at] < 224 {
        2
    } else if bytes[at] < 240 {
        3
    } else {
        4
    };
    if at + width <= bytes.len() {
        at + width
    } else {
        bytes.len() as int
    }
}

/// The token that is one or two signs, and where it ends.
pub open spec fn sign_at(bytes: Seq<u8>, at: int) -> Option<(Token, int)> {
    let byte = bytes[at];
    let paired = byte_is(bytes, at + 1, 61);
    if byte == 124 {
        Some((Token::Pipe, at + 1))
    } else if byte == 40 {
        Some((Token::LeftParenthesis, at + 1))
    } else if byte == 41 {
        Some((Token::RightParenthesis, at + 1))
    } else if byte == 44 {
        Some((Token::Comma, at + 1))
    } else if byte == 43 {
        Some((Token::OperatorAdd, at + 1))
    } else if byte == 45 {
        Some((Token::OperatorSubtract, at + 1))
    } else if byte == 42 {
        Some((Token::OperatorMultiply, at + 1))
    } else if byte == 47 {
        Some((Token::OperatorDivide, at + 1))
    } else if byte == 61 {
        Some(
            if paired {
                (Token::OperatorEqual, at + 2)
            } else {
                (Token::OperatorAssign, at + 1)
            },
        )
    } else if byte == 33 && paired {
        Some((Token::OperatorNotEqual, at + 2))
    } else if byte == 62 {
        Some(
            if paired {
                (Token::OperatorGreaterThanOrEqual, at + 2)
            } else {
                (Token::OperatorGreaterThan, at + 1)
            },
        )
    } else if byte == 60 {
        Some(
            if paired {
                (Token::OperatorLessThanOrEqual, at + 2)
            } else {
                (Token::OperatorLessThan, at + 1)
            },
        )
    } else {
        None
    }
}

/// The token that begins with a digit, and where it ends: the longest numeral. One that its type
/// cannot hold is invalid.
pub open spec fn number_token(bytes: Seq<u8>, at: int) -> (Lexed, int) {
    match floating_end(bytes, at) {
        Some(end) => {
            let numeral = bytes.subrange(at, end);
            if decimal_below(numeral, FLOAT64_LIMIT@) {
                (Lexed::FloatingPoint(ascii_text(numeral)), end)
            } else {
                (Lexed::Error, end)
            }
        },
        None => {
            let end = digits_end(bytes, at);
            match integer_of(bytes.subrange(at, end)) {
                Some(value) if 0 <= value <= u64::MAX => (Lexed::Integer(value as u64), end),
                _ => (Lexed::Error, end),
            }
        },
    }
}

/// The token that begins with a letter or an underscore, and where it ends.
pub open spec fn word_token(bytes: Seq<u8>, at: int) -> (Lexed, int) {
    let end = name_end(bytes, at);
    let word = ascii_text(bytes.subrange(at, end));
    match keyword_of(word) {
        Some(token) => (Lexed::Fixed(token), end),
        None => (Lexed::Identifier(word), end),
    }
}

/// The token that begins at `at`, where no space is, and where it ends. What begins no token is
/// invalid up to the end of its first character.
pub open spec fn token_at(bytes: Seq<u8>, at: int) -> (Lexed, int) {
    let byte = bytes[at];
    let invalid = (Lexed::Error, char_end(bytes, at));
    if is_digit(byte) {
        number_token(bytes, at)
    } else if is_name_start(byte) {
        word_token(bytes, at)
    } else if byte == 34 {
        match string_close(bytes, at + 1) {
            Some(end) => match json_string(bytes.subrange(at, end)) {
                Some(text) => (Lexed::StringLiteral(text), end),
                None => (Lexed::Error, end),
            },
            None => invalid,
        }
    } else if byte == 96 {
        let end = name_end(bytes, at + 1);
        if at + 1 < bytes.len() && is_name_start(bytes[at + 1]) && byte_is(bytes, end, 96) {
            (Lexed::QuotedIdentifier(ascii_text(bytes.subrange(at + 1, end))), end + 1)
        } else {
            invalid
        }
    } else if byte == 64 {
        if at + 1 < bytes.len() && is_name_start(bytes[at + 1]) {
            let end = name_end(bytes, at + 1);
            (Lexed::SystemIdentifier(ascii_text(bytes.subrange(at, end))), end)
        } else {
            (Lexed::Fixed(Token::At), at + 1)
        }
    } else {
        match sign_at(bytes, at) {
            Some((token, end)) => (Lexed::Fixed(token), end),
            None => invalid,
        }
    }
}

/// The tokens from `at` on.
pub open spec fn tokens_from(bytes: Seq<u8>, at: int) -> Seq<(Lexed, Span)>
    decreases bytes.len() - at,
{
    let start = space_end(bytes, at);
    if !(at <= start < bytes.len()) {
        Seq::empty()
    } else {
        let (token, end) = token_at(bytes, start);
        if !(start < end <= bytes.len()) {
            Seq::empty()
        } else {
            seq![(token, Span { start: start as usize, end: end as usize })] + tokens_from(
                bytes,
                end,
            )
        }
    }
}

/// What tokens are, and where they stand.
pub open spec fn token_views(tokens: Seq<(Token, Span)>) -> Seq<(Lexed, Span)> {
    Seq::new(tokens.len(), |i: int| (tokens[i].0@, tokens[i].1))
}

proof fn lemma_name_end(bytes: Seq<u8>, at: int)
    requires
        0 <= at <= bytes.len(),
    ensures
        at <= name_end(bytes, at) <= bytes.len(),
        at < bytes.len() && is_name_part(bytes[at]) ==> at < name_end(bytes, at),
    decreases bytes.len() - at,
{
    if at < bytes.len() && is_name_part(bytes[at]) {
        lemma_name_end(bytes, at + 1);
    }
}

proof fn lemma_string_close(bytes: Seq<u8>, at: int)
    requires
        0 <= at <= bytes.len(),
    ensures
        string_close(bytes, at) matches Some(end) ==> at < end <= bytes.len(),
    decreases bytes.len() - at,
{
    if at < bytes.len() && bytes[at] != 34 {
        if bytes[at] == 92 {
            if at + 1 < bytes.len() && is_escape(bytes[at + 1]) {
                lemma_string_close(bytes, at + 2);
            } else if byte_is(bytes, at + 1, 117) && hex_follows(bytes, at + 2) {
                lemma_string_close(bytes, at + 6);
            }
        } else if bytes[at] >= 32 {
            lemma_string_close(bytes, at + 1);
        }
    }
}

proof fn lemma_space_end(bytes: Seq<u8>, at: int)
    requires
        0 <= at <= bytes.len(),
    ensures
        at <= space_end(bytes, at) <= bytes.len(),
    decreases bytes.len() - at,
{
    if at < bytes.len() && is_space(bytes[at]) {
        lemma_space_end(bytes, at + 1);
    }
}

fn scan_space(bytes: &[u8], at: usize) -> (r: usize)
    requires
        at <= bytes@.len(),
    ensures
        r == space_end(bytes@, at as int),
        at <= r <= bytes@.len(),
{
    let available: usize = bytes.len();
    let mut index: usize = at;
    while index < available && (bytes[index] == 32 || bytes[index] == 9 || bytes[index] == 12
        || bytes[index] == 13 || bytes[index] == 10)
        invariant
            available == bytes@.len(),
            at <= index <= available,
            space_end(bytes@, at as int) == space_end(bytes@, index as int),
        decreases available - index,
    {
        index = index + 1;
    }
    index
}

fn starts_name(byte: u8) -> (r: bool)
    ensures
        r == is_name_start(byte),
{
    65 <= byte && byte <= 90 || 97 <= byte && byte <= 122 || byte == 95
}

fn scan_name(bytes: &[u8], at: usize) -> (r: usize)
    requires
        at <= bytes@.len(),
    ensures
        r == name_end(bytes@, at as int),
        at <= r <= bytes@.len(),
        at < bytes@.len() && is_name_part(bytes@[at as int]) ==> at < r,
{
    let available: usize = bytes.len();
    let mut index: usize = at;
    while index < available && (starts_name(bytes[index]) || 48 <= bytes[index] && bytes[index]
        <= 57)
        invariant
            available == bytes@.len(),
            at <= index <= available,
            name_end(bytes@, at as int) == name_end(bytes@, index as int),
        decreases available - index,
    {
        index = index + 1;
    }
    proof {
        lemma_name_end(bytes@, at as int);
    }
    index
}

fn has_byte(bytes: &[u8], at: usize, byte: u8) -> (r: bool)
    ensures
        r == byte_is(bytes@, at as int, byte),
{
    at < bytes.len() && bytes[at] == byte
}

fn has_digit(bytes: &[u8], at: usize) -> (r: bool)
    ensures
        r == digit_follows(bytes@, at as int),
{
    at < bytes.len() && 48 <= bytes[at] && bytes[at] <= 57
}

fn scan_exponent(bytes: &[u8], at: usize) -> (r: Option<usize>)
    requires
        at <= bytes@.len(),
    ensures
        match r {
            Some(end) => exponent_end(bytes@, at as int) == Some(end as int) && at < end
                <= bytes@.len(),
            None => exponent_end(bytes@, at as int) is None,
        },
{
    let available: usize = bytes.len();
    if !(has_byte(bytes, at, 101) || has_byte(bytes, at, 69)) {
        return None;
    }
    let digits: usize = if at + 1 < available && (bytes[at + 1] == 43 || bytes[at + 1] == 45) {
        at + 2
    } else {
        at + 1
    };
    if has_digit(bytes, digits) {
        Some(scan_digits(bytes, digits))
    } else {
        None
    }
}

fn scan_floating(bytes: &[u8], at: usize) -> (r: Option<usize>)
    requires
        digit_follows(bytes@, at as int),
    ensures
        match r {
            Some(end) => floating_end(bytes@, at as int) == Some(end as int) && at < end
                <= bytes@.len(),
            None => floating_end(bytes@, at as int) is None,
        },
{
    let available: usize = bytes.len();
    let whole: usize = scan_digits(bytes, at);
    if bytes[at] == 48 && whole != at + 1 {
        return None;
    }
    if has_byte(bytes, whole, 46) && whole + 1 < available && has_digit(bytes, whole + 1) {
        let fraction: usize = scan_digits(bytes, whole + 1);
        match scan_exponent(bytes, fraction) {
            Some(end) => Some(end),
            None => Some(fraction),
        }
    } else {
        scan_exponent(bytes, whole)
    }
}

fn hex_digit(byte: u8) -> (r: bool)
    ensures
        r == is_hex_digit(byte),
{
    48 <= byte && byte <= 57 || 65 <= byte && byte <= 70 || 97 <= byte && byte <= 102
}

fn scan_string(bytes: &[u8], at: usize) -> (r: Option<usize>)
    requires
        at <= bytes@.len(),
    ensures
        match r {
            Some(end) => string_close(bytes@, at as int) == Some(end as int) && at < end
                <= bytes@.len(),
            None => string_close(bytes@, at as int) is None,
        },
{
    let available: usize = bytes.len();
    let mut index: usize = at;
    while index < available
        invariant
            available == bytes@.len(),
            at <= index <= available,
            string_close(bytes@, at as int) == string_close(bytes@, index as int),
        decreases available - index,
    {
        let byte: u8 = bytes[index];
        if byte == 34 {
            return Some(index + 1);
        }
        if byte == 92 {
            if available - index < 2 {
                return None;
            }
            let letter: u8 = bytes[index + 1];
            if letter == 34 || letter == 92 || letter == 47 || letter == 98 || letter == 102
                || letter == 110 || letter == 114 || letter == 116 {
                index = index + 2;
            } else if letter == 117 && available - index >= 6 && hex_digit(bytes[index + 2])
                && hex_digit(bytes[index + 3]) && hex_digit(bytes[index + 4]) && hex_digit(
                bytes[index + 5],
            ) {
                index = index + 6;
            } else {
                return None;
            }
        } else if byte < 32 {
            return None;
        } else {
            index = index + 1;
        }
    }
    None
}

fn scan_char(bytes: &[u8], at: usize) -> (r: usize)
    requires
        at < bytes@.len(),
    ensures
        r == char_end(bytes@, at as int),
        at < r <= bytes@.len(),
{
    let available: usize = bytes.len();
    let width: usize = if bytes[at] < 128 {
        1
    } else if bytes[at] < 224 {
        2
    } else if bytes[at] < 240 {
        3
    } else {
        4
    };
    if width <= available - at {
        at + width
    } else {
        available
    }
}

fn read_sign(bytes: &[u8], at: usize) -> (r: Option<(Token, usize)>)
    requires
        at < bytes@.len(),
    ensures
        match r {
            Some((token, end)) => sign_at(bytes@, at as int) == Some((token, end as int)) && at
                < end <= bytes@.len() && token@ == Lexed::Fixed(token),
            None => sign_at(bytes@, at as int) is None,
        },
{
    assert(bytes.len() == bytes@.len());
    let byte: u8 = bytes[at];
    let paired: bool = has_byte(bytes, at + 1, 61);
    if byte == 124 {
        Some((Token::Pipe, at + 1))
    } else if byte == 40 {
        Some((Token::LeftParenthesis, at + 1))
    } else if byte == 41 {
        Some((Token::RightParenthesis, at + 1))
    } else if byte == 44 {
        Some((Token::Comma, at + 1))
    } else if byte == 43 {
        Some((Token::OperatorAdd, at + 1))
    } else if byte == 45 {
        Some((Token::OperatorSubtract, at + 1))
    } else if byte == 42 {
        Some((Token::OperatorMultiply, at + 1))
    } else if byte == 47 {
        Some((Token::OperatorDivide, at + 1))
    } else if byte == 61 {
        if paired {
            Some((Token::OperatorEqual, at + 2))
        } else {
            Some((Token::OperatorAssign, at + 1))
        }
    } else if byte == 33 && paired {
        Some((Token::OperatorNotEqual, at + 2))
    } else if byte == 62 {
        if paired {
            Some((Token::OperatorGreaterThanOrEqual, at + 2))
        } else {
            Some((Token::OperatorGreaterThan, at + 1))
        }
    } else if byte == 60 {
        if paired {
            Some((Token::OperatorLessThanOrEqual, at + 2))
        } else {
            Some((Token::OperatorLessThan, at + 1))
        }
    } else {
        None
    }
}

/// Whether a token and its end are what a specification says.
pub open spec fn same_token(r: (Token, usize), bytes: Seq<u8>, at: int, made: (Lexed, int)) -> bool {
    r.0@ == made.0 && r.1 == made.1 && at < r.1 <= bytes.len()
}

fn read_number(bytes: &[u8], at: usize) -> (r: (Token, usize))
    requires
        digit_follows(bytes@, at as int),
    ensures
        same_token(r, bytes@, at as int, number_token(bytes@, at as int)),
{
    match scan_floating(bytes, at) {
        Some(end) => {
            let numeral: &[u8] = vstd::slice::slice_subrange(bytes, at, end);
            if float64_is_finite(numeral) {
                (Token::FloatingPoint(read_ascii(bytes, at, end)), end)
            } else {
                (Token::Error, end)
            }
        },
        None => {
            let end: usize = scan_digits(bytes, at);
            proof {
                lemma_digits_stay(bytes@, at + 1);
            }
            match parse_u64(vstd::slice::slice_subrange(bytes, at, end)) {
                Some(value) => (Token::Integer(value), end),
                None => (Token::Error, end),
            }
        },
    }
}

fn read_word(bytes: &[u8], at: usize) -> (r: (Token, usize))
    requires
        at < bytes@.len(),
        is_name_start(bytes@[at as int]),
    ensures
        same_token(r, bytes@, at as int, word_token(bytes@, at as int)),
{
    let end: usize = scan_name(bytes, at);
    let word: String = read_ascii(bytes, at, end);
    match find_keyword(&word) {
        Some(token) => (token, end),
        None => (Token::Identifier(word), end),
    }
}

fn read_token(bytes: &[u8], at: usize) -> (r: (Token, usize))
    requires
        at < bytes@.len(),
    ensures
        same_token(r, bytes@, at as int, token_at(bytes@, at as int)),
{
    let available: usize = bytes.len();
    let byte: u8 = bytes[at];
    if 48 <= byte && byte <= 57 {
        read_number(bytes, at)
    } else if starts_name(byte) {
        read_word(bytes, at)
    } else if byte == 34 {
        match scan_string(bytes, at + 1) {
            Some(end) => match decode_string(vstd::slice::slice_subrange(bytes, at, end)) {
                Some(text) => (Token::StringLiteral(text), end),
                None => (Token::Error, end),
            },
            None => (Token::Error, scan_char(bytes, at)),
        }
    } else if byte == 96 {
        let end: usize = scan_name(bytes, at + 1);
        if at + 1 < available && starts_name(bytes[at + 1]) && has_byte(bytes, end, 96) {
            (Token::QuotedIdentifier(read_ascii(bytes, at + 1, end)), end + 1)
        } else {
            (Token::Error, scan_char(bytes, at))
        }
    } else if byte == 64 {
        if at + 1 < available && starts_name(bytes[at + 1]) {
            let end: usize = scan_name(bytes, at + 1);
            (Token::SystemIdentifier(read_ascii(bytes, at, end)), end)
        } else {
            (Token::At, at + 1)
        }
    } else {
        match read_sign(bytes, at) {
            Some((token, end)) => (token, end),
            None => (Token::Error, scan_char(bytes, at)),
        }
    }
}

/// The tokens of a query, and where they stand.
pub fn tokenizer(source: &str) -> (r: Vec<(Token, Span)>)
    ensures
        token_views(r@) == tokens_from(source.spec_bytes(), 0),
{
    let bytes: &[u8] = source.as_bytes();
    let available: usize = bytes.len();
    let mut tokens: Vec<(Token, Span)> = Vec::new();
    let mut at: usize = 0;
    assert(token_views(tokens@) =~= Seq::empty());
    assert(tokens_from(bytes@, 0) =~= token_views(tokens@) + tokens_from(bytes@, 0));
    loop
        invariant
            available == bytes@.len(),
            at <= available,
            tokens_from(bytes@, 0) == token_views(tokens@) + tokens_from(bytes@, at as int),
        ensures
            token_views(tokens@) == tokens_from(bytes@, 0),
        decreases available - at,
    {
        let start: usize = scan_space(bytes, at);
        if start >= available {
            assert(tokens_from(bytes@, at as int) =~= Seq::empty());
            assert(token_views(tokens@) =~= tokens_from(bytes@, 0));
            break;
        }
        let (token, end): (Token, usize) = read_token(bytes, start);
        let ghost before = token_views(tokens@);
        let ghost view = (token@, Span { start, end });
        tokens.push((token, Span { start, end }));
        proof {
            assert(token_views(tokens@) =~= before.push(view));
            assert(tokens_from(bytes@, at as int) == seq![view] + tokens_from(
                bytes@,
                end as int,
            ));
            assert(before + (seq![view] + tokens_from(bytes@, end as int)) =~= before.push(view)
                + tokens_from(bytes@, end as int));
        }
        at = end;
    }
    tokens
}

/// Tokens stand in the query one after the other, and each of them is at least one byte.
pub proof fn tokens_follow_each_other(bytes: Seq<u8>, at: int)
    requires
        0 <= at <= bytes.len() <= usize::MAX,
    ensures
        forall|i: int|
            0 <= i < tokens_from(bytes, at).len() ==> {
                let span = (#[trigger] tokens_from(bytes, at)[i]).1;
                at <= span.start < span.end <= bytes.len()
            },
        forall|i: int, j: int|
            0 <= i < j < tokens_from(bytes, at).len() ==> (#[trigger] tokens_from(
                bytes,
                at,
            )[i]).1.end <= (#[trigger] tokens_from(bytes, at)[j]).1.start,
    decreases bytes.len() - at,
{
    lemma_space_end(bytes, at);
    let start = space_end(bytes, at);
    if start < bytes.len() {
        let (token, end) = token_at(bytes, start);
        if end > start {
            lemma_token_end(bytes, start);
            tokens_follow_each_other(bytes, end);
            let rest = tokens_from(bytes, end);
            let all = tokens_from(bytes, at);
            assert forall|i: int| 0 < i < all.len() implies #[trigger] all[i] == rest[i - 1] by {}
        }
    }
}

proof fn lemma_digits_stay(bytes: Seq<u8>, at: int)
    requires
        0 <= at <= bytes.len(),
    ensures
        at <= digits_end(bytes, at) <= bytes.len(),
    decreases bytes.len() - at,
{
    if at < bytes.len() && is_digit(bytes[at]) {
        lemma_digits_stay(bytes, at + 1);
    }
}

proof fn lemma_exponent_end(bytes: Seq<u8>, at: int)
    requires
        0 <= at <= bytes.len(),
    ensures
        exponent_end(bytes, at) matches Some(end) ==> end <= bytes.len(),
{
    if at + 1 <= bytes.len() {
        lemma_digits_stay(bytes, at + 1);
    }
    if at + 2 <= bytes.len() {
        lemma_digits_stay(bytes, at + 2);
    }
}

proof fn lemma_token_end(bytes: Seq<u8>, at: int)
    requires
        0 <= at < bytes.len(),
    ensures
        token_at(bytes, at).1 <= bytes.len(),
{
    lemma_digits_stay(bytes, at);
    let whole = digits_end(bytes, at);
    lemma_exponent_end(bytes, whole);
    if whole + 1 <= bytes.len() {
        lemma_digits_stay(bytes, whole + 1);
        lemma_exponent_end(bytes, digits_end(bytes, whole + 1));
    }
    lemma_name_end(bytes, at);
    lemma_name_end(bytes, at + 1);
    lemma_string_close(bytes, at + 1);
}

/// A token with a fixed spelling stands where that spelling stands. A name, a numeral and a string
/// stand for the bytes that they were read from, and none of them could have been longer: a sign that
/// an equals sign completes is never read without it, a word ends where no letter, digit or
/// underscore follows, and a numeral where no digit follows.
pub proof fn tokens_are_read_as_spelled(bytes: Seq<u8>, at: int)
    requires
        0 <= at < bytes.len(),
    ensures
        ({
            let (token, end) = token_at(bytes, at);
            let written = ascii_text(bytes.subrange(at, end));
            &&& end <= bytes.len()
            &&& match token {
                Lexed::Error => true,
                Lexed::Fixed(sign) => {
                    &&& written == sign.spelling()
                    &&& sign is OperatorLessThan || sign is OperatorGreaterThan || sign
                        is OperatorAssign ==> !byte_is(bytes, end, 61)
                    &&& is_name_start(bytes[at]) ==> end == bytes.len() || !is_name_part(bytes[end])
                },
                Lexed::Identifier(name) => {
                    &&& name == written
                    &&& is_name_start(bytes[at])
                    &&& forall|i: int| at <= i < end ==> is_name_part(#[trigger] bytes[i])
                    &&& end == bytes.len() || !is_name_part(bytes[end])
                },
                Lexed::QuotedIdentifier(name) => {
                    &&& end >= at + 3
                    &&& bytes[at] == 96 && bytes[end - 1] == 96
                    &&& name == ascii_text(bytes.subrange(at + 1, end - 1))
                    &&& is_name_start(bytes[at + 1])
                    &&& forall|i: int| at < i < end - 1 ==> is_name_part(#[trigger] bytes[i])
                },
                Lexed::SystemIdentifier(name) => {
                    &&& name == written
                    &&& bytes[at] == 64
                    &&& end > at + 1 && is_name_start(bytes[at + 1])
                    &&& forall|i: int| at < i < end ==> is_name_part(#[trigger] bytes[i])
                    &&& end == bytes.len() || !is_name_part(bytes[end])
                },
                Lexed::Integer(value) => {
                    &&& integer_of(bytes.subrange(at, end)) == Some(value as int)
                    &&& forall|i: int| at <= i < end ==> is_digit(#[trigger] bytes[i])
                    &&& end == bytes.len() || !is_digit(bytes[end])
                },
                Lexed::FloatingPoint(text) => {
                    &&& text == written
                    &&& is_digit(bytes[at])
                    &&& end == bytes.len() || !is_digit(bytes[end])
                },
                Lexed::StringLiteral(text) => {
                    &&& bytes[at] == 34
                    &&& end > at + 1 && bytes[end - 1] == 34
                    &&& json_string(bytes.subrange(at, end)) == Some(text)
                },
            }
        }),
{
    lemma_token_end(bytes, at);
    let (token, end) = token_at(bytes, at);
    let byte = bytes[at];
    let written = ascii_text(bytes.subrange(at, end));
    if is_digit(byte) {
        lemma_digit_run(bytes, at);
        lemma_numeral_ends(bytes, at);
    } else if is_name_start(byte) {
        lemma_name_run(bytes, at);
        keywords_are_shown_as_spelled(written);
    } else if byte == 34 {
        lemma_string_closes(bytes, at + 1);
    } else if byte == 96 {
        lemma_name_run(bytes, at + 1);
    } else if byte == 64 {
        lemma_name_run(bytes, at + 1);
        reveal_strlit("@");
        assert(token is Fixed ==> written =~= "@"@);
    } else {
        reveal_strlit("|");
        reveal_strlit("(");
        reveal_strlit(")");
        reveal_strlit(",");
        reveal_strlit("+");
        reveal_strlit("-");
        reveal_strlit("*");
        reveal_strlit("/");
        reveal_strlit("==");
        reveal_strlit("!=");
        reveal_strlit(">=");
        reveal_strlit(">");
        reveal_strlit("<=");
        reveal_strlit("<");
        reveal_strlit("=");
        if let Lexed::Fixed(sign) = token {
            assert(written =~= sign.spelling());
        }
    }
}

proof fn lemma_name_run(bytes: Seq<u8>, at: int)
    requires
        0 <= at <= bytes.len(),
    ensures
        at <= name_end(bytes, at) <= bytes.len(),
        at < bytes.len() && is_name_part(bytes[at]) ==> at < name_end(bytes, at),
        forall|i: int| at <= i < name_end(bytes, at) ==> is_name_part(#[trigger] bytes[i]),
        name_end(bytes, at) < bytes.len() ==> !is_name_part(bytes[name_end(bytes, at)]),
    decreases bytes.len() - at,
{
    if at < bytes.len() && is_name_part(bytes[at]) {
        lemma_name_run(bytes, at + 1);
    }
}

proof fn lemma_digit_run(bytes: Seq<u8>, at: int)
    requires
        0 <= at <= bytes.len(),
    ensures
        at <= digits_end(bytes, at) <= bytes.len(),
        at < bytes.len() && is_digit(bytes[at]) ==> at < digits_end(bytes, at),
        forall|i: int| at <= i < digits_end(bytes, at) ==> is_digit(#[trigger] bytes[i]),
        digits_end(bytes, at) < bytes.len() ==> !is_digit(bytes[digits_end(bytes, at)]),
    decreases bytes.len() - at,
{
    if at < bytes.len() && is_digit(bytes[at]) {
        lemma_digit_run(bytes, at + 1);
    }
}

proof fn lemma_exponent_ends(bytes: Seq<u8>, at: int)
    requires
        0 <= at <= bytes.len(),
    ensures
        exponent_end(bytes, at) matches Some(end) ==> end <= bytes.len() && (end == bytes.len()
            || !is_digit(bytes[end])),
{
    if at + 1 <= bytes.len() {
        lemma_digit_run(bytes, at + 1);
    }
    if at + 2 <= bytes.len() {
        lemma_digit_run(bytes, at + 2);
    }
}

proof fn lemma_numeral_ends(bytes: Seq<u8>, at: int)
    requires
        0 <= at < bytes.len(),
        is_digit(bytes[at]),
    ensures
        floating_end(bytes, at) matches Some(end) ==> end <= bytes.len() && (end == bytes.len()
            || !is_digit(bytes[end])),
{
    lemma_digit_run(bytes, at);
    let whole = digits_end(bytes, at);
    lemma_exponent_ends(bytes, whole);
    if whole + 1 <= bytes.len() {
        lemma_digit_run(bytes, whole + 1);
        lemma_exponent_ends(bytes, digits_end(bytes, whole + 1));
    }
}

proof fn lemma_string_closes(bytes: Seq<u8>, at: int)
    requires
        0 <= at <= bytes.len(),
    ensures
        string_close(bytes, at) matches Some(end) ==> at < end <= bytes.len() && bytes[end - 1]
            == 34,
    decreases bytes.len() - at,
{
    if at < bytes.len() && bytes[at] != 34 {
        if bytes[at] == 92 {
            if at + 1 < bytes.len() && is_escape(bytes[at + 1]) {
                lemma_string_closes(bytes, at + 2);
            } else if byte_is(bytes, at + 1, 117) && hex_follows(bytes, at + 2) {
                lemma_string_closes(bytes, at + 6);
            }
        } else if bytes[at] >= 32 {
            lemma_string_closes(bytes, at + 1);
        }
    }
}

proof fn lemma_spaces(bytes: Seq<u8>, at: int)
    requires
        0 <= at <= bytes.len(),
    ensures
        at <= space_end(bytes, at) <= bytes.len(),
        forall|i: int| at <= i < space_end(bytes, at) ==> is_space(#[trigger] bytes[i]),
        space_end(bytes, at) < bytes.len() ==> !is_space(bytes[space_end(bytes, at)]),
    decreases bytes.len() - at,
{
    if at < bytes.len() && is_space(bytes[at]) {
        lemma_spaces(bytes, at + 1);
    }
}

/// Every byte of a query that is no space lies in one of its tokens, and each token is what stands at
/// its place.
pub proof fn tokens_cover_the_query(bytes: Seq<u8>, at: int)
    requires
        0 <= at <= bytes.len() <= usize::MAX,
    ensures
        forall|i: int|
            0 <= i < tokens_from(bytes, at).len() ==> {
                let (token, span) = #[trigger] tokens_from(bytes, at)[i];
                token_at(bytes, span.start as int) == (token, span.end as int)
            },
        forall|place: int|
            at <= place < bytes.len() && !is_space(#[trigger] bytes[place]) ==> exists|i: int|
                0 <= i < tokens_from(bytes, at).len() && (#[trigger] tokens_from(
                    bytes,
                    at,
                )[i]).1.start <= place < tokens_from(bytes, at)[i].1.end,
    decreases bytes.len() - at,
{
    lemma_spaces(bytes, at);
    let start = space_end(bytes, at);
    if start < bytes.len() {
        let (token, end) = token_at(bytes, start);
        lemma_token_end(bytes, start);
        lemma_token_advances(bytes, start);
        tokens_cover_the_query(bytes, end);
        let rest = tokens_from(bytes, end);
        let all = tokens_from(bytes, at);
        assert(all[0] == (token, Span { start: start as usize, end: end as usize }));
        assert forall|i: int| 0 < i < all.len() implies #[trigger] all[i] == rest[i - 1] by {}
        assert forall|place: int|
            at <= place < bytes.len() && !is_space(#[trigger] bytes[place]) implies exists|i: int|
            0 <= i < all.len() && (#[trigger] all[i]).1.start <= place < all[i].1.end by {
            if place < end {
                assert(all[0].1.start <= place < all[0].1.end);
            } else {
                let i = choose|i: int|
                    0 <= i < rest.len() && (#[trigger] rest[i]).1.start <= place < rest[i].1.end;
                assert(all[i + 1] == rest[i]);
            }
        }
    }
}

proof fn lemma_token_advances(bytes: Seq<u8>, at: int)
    requires
        0 <= at < bytes.len(),
    ensures
        at < token_at(bytes, at).1,
{
    lemma_digit_run(bytes, at);
    lemma_name_run(bytes, at);
    if at + 1 <= bytes.len() {
        lemma_name_run(bytes, at + 1);
        lemma_string_closes(bytes, at + 1);
    }
    let whole = digits_end(bytes, at);
    if whole + 1 <= bytes.len() {
        lemma_digit_run(bytes, whole + 1);
    }
    lemma_exponent_advances(bytes, whole);
    lemma_exponent_advances(bytes, digits_end(bytes, whole + 1));
}

proof fn lemma_exponent_advances(bytes: Seq<u8>, at: int)
    ensures
        0 <= at <= bytes.len() ==> (exponent_end(bytes, at) matches Some(end) ==> at < end),
{
    if 0 <= at {
        if at + 1 <= bytes.len() {
            lemma_digit_run(bytes, at + 1);
        }
        if at + 2 <= bytes.len() {
            lemma_digit_run(bytes, at + 2);
        }
    }
}

} // verus!
