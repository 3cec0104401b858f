//! JSON values, and the reading of one value from bytes.

use vstd::prelude::*;
use vstd::string::*;
use vstd::utf8::{decode_utf8, encode_utf8, encode_utf8_decode_utf8, valid_utf8};

use crate::text::{
    optional_view, text_before, text_precedes, the_order_of_texts_is_total, utf8_text,
};

verus! {

/// How many arrays and objects may be nested in one another.
pub const MAXIMUM_JSON_CONTAINER_DEPTH: usize = 128;

/// A JSON value. A number is kept as its exact decimal text.
#[derive(Debug)]
pub enum JsonValue {
    Null,
    Bool(bool),
    Number(String),
    String(String),
    Array(Vec<JsonValue>),
    Object(JsonObject),
}

/// The members of a JSON object, in the order in which they were read. No key occurs twice.
#[derive(Debug)]
pub struct JsonObject {
    pub members: Vec<(String, JsonValue)>,
}

/// What a JSON value is.
#[verifier::ext_equal]
pub enum Json {
    Null,
    Bool(bool),
    Number(Seq<char>),
    Text(Seq<char>),
    Array(Seq<Json>),
    Object(Seq<(Seq<char>, Json)>),
}

impl JsonValue {
    pub open spec fn model(self) -> Json
        decreases self,
    {
        match self {
            JsonValue::Null => Json::Null,
            JsonValue::Bool(value) => Json::Bool(value),
            JsonValue::Number(text) => Json::Number(text@),
            JsonValue::String(text) => Json::Text(text@),
            JsonValue::Array(items) => Json::Array(
                Seq::new(
                    items@.len(),
                    |i: int|
                        if 0 <= i < items@.len() {
                            items@[i].model()
                        } else {
                            Json::Null
                        },
                ),
            ),
            JsonValue::Object(object) => Json::Object(
                Seq::new(
                    object.members@.len(),
                    |i: int|
                        if 0 <= i < object.members@.len() {
                            (object.members@[i].0@, object.members@[i].1.model())
                        } else {
                            (Seq::empty(), Json::Null)
                        },
                ),
            ),
        }
    }
}

/// What the items of an array are.
pub open spec fn item_models(items: Seq<JsonValue>) -> Seq<Json> {
    Seq::new(items.len(), |i: int| items[i].model())
}

/// What the members of an object are.
pub open spec fn member_models(members: Seq<(String, JsonValue)>) -> Seq<(Seq<char>, Json)> {
    Seq::new(members.len(), |i: int| (members[i].0@, members[i].1.model()))
}

impl View for JsonObject {
    type V = Seq<(Seq<char>, Json)>;

    open spec fn view(&self) -> Seq<(Seq<char>, Json)> {
        member_models(self.members@)
    }
}

pub(crate) proof fn lemma_array_model(items: Vec<JsonValue>)
    ensures
        JsonValue::Array(items).model() == Json::Array(item_models(items@)),
{
    assert(JsonValue::Array(items).model()->Array_0 =~= item_models(items@));
}

pub(crate) proof fn lemma_object_model(object: JsonObject)
    ensures
        JsonValue::Object(object).model() == Json::Object(object@),
{
    assert(JsonValue::Object(object).model()->Object_0 =~= object@);
}

/// Whether one of the members has this key.
pub open spec fn has_key(members: Seq<(Seq<char>, Json)>, key: Seq<char>) -> bool {
    exists|i: int| 0 <= i < members.len() && #[trigger] members[i].0 == key
}

/// Whether no key occurs twice.
pub open spec fn unique_keys(members: Seq<(Seq<char>, Json)>) -> bool {
    forall|i: int, j: int|
        0 <= i < j < members.len() ==> #[trigger] members[i].0 != #[trigger] members[j].0
}

/// The value of the first member with this key.
pub open spec fn member_value(members: Seq<(Seq<char>, Json)>, key: Seq<char>) -> Option<Json>
    decreases members.len(),
{
    if members.len() == 0 {
        None
    } else if members[0].0 == key {
        Some(members[0].1)
    } else {
        member_value(members.subrange(1, members.len() as int), key)
    }
}

/// The text that a quoted JSON string denotes.
pub uninterp spec fn json_string(quoted: Seq<u8>) -> Option<Seq<char>>;

/// Calls `serde_json::from_slice` for a `String`. Claimed of it: whether the bytes are one JSON
/// string, and which text it denotes, depends on the bytes alone.
#[verifier::external_body]
pub(crate) fn decode_string(quoted: &[u8]) -> (text: Option<String>)
    ensures
        optional_view(text) == json_string(quoted@),
{
    serde_json::from_slice(quoted).ok()
}

/// The exact decimal text of a JSON number.
pub uninterp spec fn json_number(text: Seq<char>) -> Option<Seq<char>>;

/// Calls `serde_json::Number::from_str` and the `to_string` of the number. Claimed of it: whether
/// the text is one JSON number, and the text kept for it, depends on the text alone.
#[verifier::external_body]
fn decode_number(text: &str) -> (number: Option<String>)
    ensures
        optional_view(number) == json_number(text@),
{
    <serde_json::Number as std::str::FromStr>::from_str(text).ok().map(
        |number| number.to_string(),
    )
}

pub open spec fn is_json_whitespace(byte: u8) -> bool {
    byte == 32 || byte == 9 || byte == 13 || byte == 10
}

/// Whether a byte ends a number.
pub open spec fn is_value_delimiter(byte: u8) -> bool {
    is_json_whitespace(byte) || byte == 44 || byte == 93 || byte == 125
}

/// The first position from `at` on that holds no whitespace.
pub open spec fn skip_space(bytes: Seq<u8>, at: int) -> int
    decreases bytes.len() - at,
{
    if 0 <= at < bytes.len() && is_json_whitespace(bytes[at]) {
        skip_space(bytes, at + 1)
    } else {
        at
    }
}

/// The position behind the quotation mark that closes a string.
pub open spec fn string_end(bytes: Seq<u8>, at: int, escaped: bool) -> Option<int>
    decreases bytes.len() - at,
{
    if !(0 <= at < bytes.len()) {
        None
    } else if escaped {
        string_end(bytes, at + 1, false)
    } else if bytes[at] == 92 {
        string_end(bytes, at + 1, true)
    } else if bytes[at] == 34 {
        Some(at + 1)
    } else {
        string_end(bytes, at + 1, false)
    }
}

/// The string that starts at `at`, and the position behind it.
pub open spec fn string_at(bytes: Seq<u8>, at: int) -> Option<(Seq<char>, int)> {
    if 0 <= at < bytes.len() && bytes[at] == 34 {
        match string_end(bytes, at + 1, false) {
            None => None,
            Some(end) => match json_string(bytes.subrange(at, end)) {
                None => None,
                Some(text) => Some((text, end)),
            },
        }
    } else {
        None
    }
}

/// The first position from `at` on that ends a number.
pub open spec fn number_end(bytes: Seq<u8>, at: int) -> int
    decreases bytes.len() - at,
{
    if 0 <= at < bytes.len() && !is_value_delimiter(bytes[at]) {
        number_end(bytes, at + 1)
    } else {
        at
    }
}

/// The number that starts at `at`, and the position behind it.
pub open spec fn number_at(bytes: Seq<u8>, at: int) -> Option<(Seq<char>, int)> {
    let end = number_end(bytes, at);
    let spelled = bytes.subrange(at, end);
    if valid_utf8(spelled) {
        match json_number(decode_utf8(spelled)) {
            None => None,
            Some(text) => Some((text, end)),
        }
    } else {
        None
    }
}

pub open spec fn literal_at(bytes: Seq<u8>, at: int, literal: Seq<u8>) -> bool {
    at + literal.len() <= bytes.len() && bytes.subrange(at, at + literal.len()) == literal
}

pub open spec fn null_literal() -> Seq<u8> {
    seq![110u8, 117, 108, 108]
}

pub open spec fn true_literal() -> Seq<u8> {
    seq![116u8, 114, 117, 101]
}

pub open spec fn false_literal() -> Seq<u8> {
    seq![102u8, 97, 108, 115, 101]
}

/// The value that starts behind the whitespace at `at`, and the position behind it. `depth`
/// containers are open around it.
pub open spec fn value_at(bytes: Seq<u8>, at: int, depth: nat) -> Option<(Json, int)>
    decreases bytes.len() - at, 0nat,
{
    let start = skip_space(bytes, at);
    if !(0 <= at <= start < bytes.len()) {
        None
    } else if bytes[start] == 110 {
        if literal_at(bytes, start, null_literal()) {
            Some((Json::Null, start + 4))
        } else {
            None
        }
    } else if bytes[start] == 116 {
        if literal_at(bytes, start, true_literal()) {
            Some((Json::Bool(true), start + 4))
        } else {
            None
        }
    } else if bytes[start] == 102 {
        if literal_at(bytes, start, false_literal()) {
            Some((Json::Bool(false), start + 5))
        } else {
            None
        }
    } else if bytes[start] == 34 {
        match string_at(bytes, start) {
            Some((text, end)) => Some((Json::Text(text), end)),
            None => None,
        }
    } else if bytes[start] == 91 {
        let first = skip_space(bytes, start + 1);
        if depth >= MAXIMUM_JSON_CONTAINER_DEPTH {
            None
        } else if 0 <= first < bytes.len() && bytes[first] == 93 {
            Some((Json::Array(Seq::empty()), first + 1))
        } else {
            items_at(bytes, start + 1, depth + 1, Seq::empty())
        }
    } else if bytes[start] == 123 {
        let first = skip_space(bytes, start + 1);
        if depth >= MAXIMUM_JSON_CONTAINER_DEPTH {
            None
        } else if 0 <= first < bytes.len() && bytes[first] == 125 {
            Some((Json::Object(Seq::empty()), first + 1))
        } else {
            members_at(bytes, start + 1, depth + 1, Seq::empty())
        }
    } else if bytes[start] == 45 || 48 <= bytes[start] <= 57 {
        match number_at(bytes, start) {
            Some((text, end)) => Some((Json::Number(text), end)),
            None => None,
        }
    } else {
        None
    }
}

/// The array whose first items are known and whose next item starts at `at`.
pub open spec fn items_at(bytes: Seq<u8>, at: int, depth: nat, items: Seq<Json>) -> Option<
    (Json, int),
>
    decreases bytes.len() - at, 1nat,
{
    match value_at(bytes, at, depth) {
        None => None,
        Some((item, behind)) => {
            let end = skip_space(bytes, behind);
            if !(0 <= at < end < bytes.len()) {
                None
            } else if bytes[end] == 93 {
                Some((Json::Array(items.push(item)), end + 1))
            } else if bytes[end] == 44 {
                items_at(bytes, end + 1, depth, items.push(item))
            } else {
                None
            }
        },
    }
}

/// The object whose first members are known and whose next member starts at `at`.
pub open spec fn members_at(
    bytes: Seq<u8>,
    at: int,
    depth: nat,
    members: Seq<(Seq<char>, Json)>,
) -> Option<(Json, int)>
    decreases bytes.len() - at, 1nat,
{
    match string_at(bytes, skip_space(bytes, at)) {
        None => None,
        Some((key, key_end)) => {
            let colon = skip_space(bytes, key_end);
            if has_key(members, key) {
                None
            } else if !(0 <= at < colon < bytes.len() && bytes[colon] == 58) {
                None
            } else {
                match value_at(bytes, colon + 1, depth) {
                    None => None,
                    Some((value, behind)) => {
                        let end = skip_space(bytes, behind);
                        if !(colon < end < bytes.len()) {
                            None
                        } else if bytes[end] == 125 {
                            Some((Json::Object(members.push((key, value))), end + 1))
                        } else if bytes[end] == 44 {
                            members_at(bytes, end + 1, depth, members.push((key, value)))
                        } else {
                            None
                        }
                    },
                }
            }
        },
    }
}

/// The members of the object that bytes hold, if they hold exactly one object and whitespace.
pub open spec fn object_of(bytes: Seq<u8>) -> Option<Seq<(Seq<char>, Json)>> {
    match value_at(bytes, skip_space(bytes, 0), 0) {
        Some((Json::Object(members), end)) => if skip_space(bytes, end) == bytes.len() {
            Some(members)
        } else {
            None
        },
        _ => None,
    }
}

proof fn lemma_skip_space(bytes: Seq<u8>, at: int)
    requires
        0 <= at <= bytes.len(),
    ensures
        at <= skip_space(bytes, at) <= bytes.len(),
        skip_space(bytes, skip_space(bytes, at)) == skip_space(bytes, at),
    decreases bytes.len() - at,
{
    if at < bytes.len() && is_json_whitespace(bytes[at]) {
        lemma_skip_space(bytes, at + 1);
    }
}

proof fn lemma_string_end(bytes: Seq<u8>, at: int, escaped: bool)
    requires
        0 <= at <= bytes.len(),
    ensures
        string_end(bytes, at, escaped) matches Some(end) ==> at < end <= bytes.len(),
    decreases bytes.len() - at,
{
    if at < bytes.len() {
        if escaped {
            lemma_string_end(bytes, at + 1, false);
        } else if bytes[at] == 92 {
            lemma_string_end(bytes, at + 1, true);
        } else if bytes[at] != 34 {
            lemma_string_end(bytes, at + 1, false);
        }
    }
}

proof fn lemma_number_end(bytes: Seq<u8>, at: int)
    requires
        0 <= at <= bytes.len(),
    ensures
        at <= number_end(bytes, at) <= bytes.len(),
    decreases bytes.len() - at,
{
    if at < bytes.len() && !is_value_delimiter(bytes[at]) {
        lemma_number_end(bytes, at + 1);
    }
}

fn skip_whitespace(bytes: &[u8], at: usize) -> (r: usize)
    requires
        at <= bytes@.len(),
    ensures
        r == skip_space(bytes@, at as int),
        at <= r <= bytes@.len(),
{
    let mut position: usize = at;
    while position < bytes.len() && (bytes[position] == 32 || bytes[position] == 9
        || bytes[position] == 13 || bytes[position] == 10)
        invariant
            at <= position <= bytes@.len(),
            skip_space(bytes@, at as int) == skip_space(bytes@, position as int),
        decreases bytes@.len() - position,
    {
        position = position + 1;
    }
    position
}

fn find_string_end(bytes: &[u8], at: usize) -> (r: Option<usize>)
    requires
        at <= bytes@.len(),
    ensures
        match r {
            Some(end) => string_end(bytes@, at as int, false) == Some(end as int) && at < end
                <= bytes@.len(),
            None => string_end(bytes@, at as int, false) is None,
        },
{
    let mut position: usize = at;
    let mut escaped: bool = false;
    while position < bytes.len()
        invariant
            at <= position <= bytes@.len(),
            string_end(bytes@, at as int, false) == string_end(bytes@, position as int, escaped),
        decreases bytes@.len() - position,
    {
        let byte: u8 = bytes[position];
        position = position + 1;
        if escaped {
            escaped = false;
        } else if byte == 92 {
            escaped = true;
        } else if byte == 34 {
            return Some(position);
        }
    }
    None
}

fn parse_string(bytes: &[u8], at: usize) -> (r: Option<(String, usize)>)
    requires
        at <= bytes@.len(),
    ensures
        match r {
            Some((text, end)) => string_at(bytes@, at as int) == Some((text@, end as int)) && at
                < end <= bytes@.len(),
            None => string_at(bytes@, at as int) is None,
        },
{
    if at >= bytes.len() || bytes[at] != 34 {
        return None;
    }
    match find_string_end(bytes, at + 1) {
        None => None,
        Some(end) => {
            let quoted: &[u8] = vstd::slice::slice_subrange(bytes, at, end);
            match decode_string(quoted) {
                Some(text) => Some((text, end)),
                None => None,
            }
        },
    }
}

fn parse_number(bytes: &[u8], at: usize) -> (r: Option<(String, usize)>)
    requires
        at < bytes@.len(),
        !is_value_delimiter(bytes@[at as int]),
    ensures
        match r {
            Some((text, end)) => number_at(bytes@, at as int) == Some((text@, end as int)) && at
                < end <= bytes@.len(),
            None => number_at(bytes@, at as int) is None,
        },
{
    let mut end: usize = at;
    while end < bytes.len() && !(bytes[end] == 32 || bytes[end] == 9 || bytes[end] == 13
        || bytes[end] == 10 || bytes[end] == 44 || bytes[end] == 93 || bytes[end] == 125)
        invariant
            at <= end <= bytes@.len(),
            at < bytes@.len(),
            !is_value_delimiter(bytes@[at as int]),
            number_end(bytes@, at as int) == number_end(bytes@, end as int),
        decreases bytes@.len() - end,
    {
        end = end + 1;
    }
    let spelled: &[u8] = vstd::slice::slice_subrange(bytes, at, end);
    match utf8_text(spelled) {
        None => None,
        Some(text) => {
            proof {
                encode_utf8_decode_utf8(text@);
            }
            match decode_number(text) {
                Some(number) => Some((number, end)),
                None => None,
            }
        },
    }
}

fn literal_follows(bytes: &[u8], at: usize, literal: &[u8]) -> (r: bool)
    requires
        at <= bytes@.len(),
    ensures
        r == literal_at(bytes@, at as int, literal@),
{
    let length: usize = literal.len();
    let available: usize = bytes.len();
    if available - at < length {
        return false;
    }
    let mut index: usize = 0;
    while index < length
        invariant
            index <= length,
            length == literal@.len(),
            available == bytes@.len(),
            at + length <= available,
            forall|i: int| 0 <= i < index ==> bytes@[at + i] == #[trigger] literal@[i],
        decreases length - index,
    {
        if bytes[at + index] != literal[index] {
            assert(bytes@.subrange(at as int, at + length)[index as int] != literal@[index as int]);
            return false;
        }
        index = index + 1;
    }
    assert(bytes@.subrange(at as int, at + length) =~= literal@);
    true
}

/// Reads the value that starts behind the whitespace at `at`.
fn parse_value(bytes: &[u8], at: usize, depth: usize) -> (r: Option<(JsonValue, usize)>)
    requires
        at <= bytes@.len(),
        depth <= MAXIMUM_JSON_CONTAINER_DEPTH,
    ensures
        match r {
            Some((value, end)) => value_at(bytes@, at as int, depth as nat) == Some(
                (value.model(), end as int),
            ) && at < end <= bytes@.len(),
            None => value_at(bytes@, at as int, depth as nat) is None,
        },
    decreases bytes@.len() - at, 1nat,
{
    let start: usize = skip_whitespace(bytes, at);
    if start >= bytes.len() {
        return None;
    }
    let byte: u8 = bytes[start];
    if byte == 110 {
        let literal: [u8; 4] = [110, 117, 108, 108];
        assert(literal@ =~= null_literal());
        if literal_follows(bytes, start, &literal) {
            Some((JsonValue::Null, start + 4))
        } else {
            None
        }
    } else if byte == 116 {
        let literal: [u8; 4] = [116, 114, 117, 101];
        assert(literal@ =~= true_literal());
        if literal_follows(bytes, start, &literal) {
            Some((JsonValue::Bool(true), start + 4))
        } else {
            None
        }
    } else if byte == 102 {
        let literal: [u8; 5] = [102, 97, 108, 115, 101];
        assert(literal@ =~= false_literal());
        if literal_follows(bytes, start, &literal) {
            Some((JsonValue::Bool(false), start + 5))
        } else {
            None
        }
    } else if byte == 34 {
        match parse_string(bytes, start) {
            Some((text, end)) => Some((JsonValue::String(text), end)),
            None => None,
        }
    } else if byte == 91 {
        parse_array(bytes, start, depth)
    } else if byte == 123 {
        parse_map(bytes, start, depth)
    } else if byte == 45 || (48 <= byte && byte <= 57) {
        match parse_number(bytes, start) {
            Some((text, end)) => Some((JsonValue::Number(text), end)),
            None => None,
        }
    } else {
        None
    }
}

/// Reads the array whose opening bracket stands at `start`.
fn parse_array(bytes: &[u8], start: usize, depth: usize) -> (r: Option<(JsonValue, usize)>)
    requires
        start < bytes@.len(),
        bytes@[start as int] == 91,
        depth <= MAXIMUM_JSON_CONTAINER_DEPTH,
    ensures
        match r {
            Some((value, end)) => value_at(bytes@, start as int, depth as nat) == Some(
                (value.model(), end as int),
            ) && start < end <= bytes@.len(),
            None => value_at(bytes@, start as int, depth as nat) is None,
        },
    decreases bytes@.len() - start, 0nat,
{
    proof {
        lemma_skip_space(bytes@, start as int);
        assert(skip_space(bytes@, start as int) == start);
    }
    if depth >= MAXIMUM_JSON_CONTAINER_DEPTH {
        return None;
    }
    let available: usize = bytes.len();
    let first: usize = skip_whitespace(bytes, start + 1);
    let mut items: Vec<JsonValue> = Vec::new();
    if first < bytes.len() && bytes[first] == 93 {
        proof {
            assert(item_models(items@) =~= Seq::empty());
            lemma_array_model(items);
        }
        return Some((JsonValue::Array(items), first + 1));
    }
    let child_depth: usize = depth + 1;
    let mut position: usize = start + 1;
    assert(item_models(items@) =~= Seq::empty());
    loop
        invariant
            start < position <= bytes@.len(),
            available == bytes@.len(),
            child_depth <= MAXIMUM_JSON_CONTAINER_DEPTH,
            value_at(bytes@, start as int, depth as nat) == items_at(
                bytes@,
                position as int,
                child_depth as nat,
                item_models(items@),
            ),
        decreases bytes@.len() - position,
    {
        let ghost read = item_models(items@);
        match parse_value(bytes, position, child_depth) {
            None => {
                return None;
            },
            Some((value, behind)) => {
                let end: usize = skip_whitespace(bytes, behind);
                items.push(value);
                assert(item_models(items@) =~= read.push(value.model()));
                if end >= bytes.len() {
                    return None;
                }
                if bytes[end] == 93 {
                    proof {
                        lemma_array_model(items);
                    }
                    return Some((JsonValue::Array(items), end + 1));
                }
                if bytes[end] != 44 {
                    return None;
                }
                position = end + 1;
            },
        }
    }
}

/// Whether one of the members has this key.
fn key_occurs(members: &Vec<(String, JsonValue)>, key: &String) -> (r: bool)
    ensures
        r == has_key(member_models(members@), key@),
{
    let ghost models = member_models(members@);
    let mut index: usize = 0;
    while index < members.len()
        invariant
            index <= members@.len(),
            models == member_models(members@),
            forall|i: int| 0 <= i < index ==> #[trigger] models[i].0 != key@,
        decreases members@.len() - index,
    {
        if members[index].0 == *key {
            assert(models[index as int].0 == key@);
            return true;
        }
        index = index + 1;
    }
    false
}

/// Reads the object whose opening brace stands at `start`.
fn parse_map(bytes: &[u8], start: usize, depth: usize) -> (r: Option<(JsonValue, usize)>)
    requires
        start < bytes@.len(),
        bytes@[start as int] == 123,
        depth <= MAXIMUM_JSON_CONTAINER_DEPTH,
    ensures
        match r {
            Some((value, end)) => value_at(bytes@, start as int, depth as nat) == Some(
                (value.model(), end as int),
            ) && start < end <= bytes@.len(),
            None => value_at(bytes@, start as int, depth as nat) is None,
        },
    decreases bytes@.len() - start, 0nat,
{
    proof {
        lemma_skip_space(bytes@, start as int);
        assert(skip_space(bytes@, start as int) == start);
    }
    if depth >= MAXIMUM_JSON_CONTAINER_DEPTH {
        return None;
    }
    let available: usize = bytes.len();
    let first: usize = skip_whitespace(bytes, start + 1);
    let mut members: Vec<(String, JsonValue)> = Vec::new();
    if first < bytes.len() && bytes[first] == 125 {
        let object = JsonObject { members };
        proof {
            assert(object@ =~= Seq::empty());
            lemma_object_model(object);
        }
        return Some((JsonValue::Object(object), first + 1));
    }
    let child_depth: usize = depth + 1;
    let mut position: usize = start + 1;
    assert(member_models(members@) =~= Seq::empty());
    loop
        invariant
            start < position <= bytes@.len(),
            available == bytes@.len(),
            child_depth <= MAXIMUM_JSON_CONTAINER_DEPTH,
            value_at(bytes@, start as int, depth as nat) == members_at(
                bytes@,
                position as int,
                child_depth as nat,
                member_models(members@),
            ),
        decreases bytes@.len() - position,
    {
        let ghost read = member_models(members@);
        let key_start: usize = skip_whitespace(bytes, position);
        let (key, key_end) = match parse_string(bytes, key_start) {
            Some(pair) => pair,
            None => {
                return None;
            },
        };
        if key_occurs(&members, &key) {
            return None;
        }
        let colon: usize = skip_whitespace(bytes, key_end);
        if colon >= bytes.len() || bytes[colon] != 58 {
            return None;
        }
        match parse_value(bytes, colon + 1, child_depth) {
            None => {
                return None;
            },
            Some((value, behind)) => {
                let end: usize = skip_whitespace(bytes, behind);
                let ghost member = (key@, value.model());
                members.push((key, value));
                assert(member_models(members@) =~= read.push(member));
                if end >= bytes.len() {
                    return None;
                }
                if bytes[end] == 125 {
                    let object = JsonObject { members };
                    proof {
                        lemma_object_model(object);
                    }
                    return Some((JsonValue::Object(object), end + 1));
                }
                if bytes[end] != 44 {
                    return None;
                }
                position = end + 1;
            },
        }
    }
}

/// The value of the first member with this key.
pub(crate) fn find_member<'a>(members: &'a Vec<(String, JsonValue)>, key: &String) -> (r: Option<
    &'a JsonValue,
>)
    ensures
        match r {
            Some(value) => member_value(member_models(members@), key@) == Some(value.model()),
            None => member_value(member_models(members@), key@) is None,
        },
{
    let ghost models = member_models(members@);
    let mut index: usize = 0;
    assert(models.subrange(0, models.len() as int) =~= models);
    while index < members.len()
        invariant
            index <= members@.len(),
            models == member_models(members@),
            member_value(models, key@) == member_value(
                models.subrange(index as int, models.len() as int),
                key@,
            ),
        decreases members@.len() - index,
    {
        let ghost rest = models.subrange(index as int, models.len() as int);
        assert(rest[0] == models[index as int]);
        if members[index].0 == *key {
            return Some(&members[index].1);
        }
        assert(rest.subrange(1, rest.len() as int) =~= models.subrange(
            index + 1,
            models.len() as int,
        ));
        index = index + 1;
    }
    None
}

/// Reads exactly one object, with whitespace around it.
pub fn parse_object(bytes: &[u8]) -> (r: Option<JsonObject>)
    ensures
        match r {
            Some(object) => object_of(bytes@) == Some(object@),
            None => object_of(bytes@) is None,
        },
{
    let start: usize = skip_whitespace(bytes, 0);
    match parse_value(bytes, start, 0) {
        None => None,
        Some((value, end)) => {
            let behind: usize = skip_whitespace(bytes, end);
            match value {
                JsonValue::Object(object) => {
                    proof {
                        lemma_object_model(object);
                    }
                    if behind != bytes.len() {
                        None
                    } else {
                        Some(object)
                    }
                },
                _ => None,
            }
        },
    }
}

/// The objects that are read have no key twice.
pub proof fn object_keys_are_unique(bytes: Seq<u8>)
    ensures
        object_of(bytes) matches Some(members) ==> unique_keys(members),
{
    let start = skip_space(bytes, 0);
    lemma_skip_space(bytes, 0);
    if let Some((Json::Object(members), end)) = value_at(bytes, start, 0) {
        let open = skip_space(bytes, start);
        lemma_skip_space(bytes, start);
        if bytes[open] == 123 {
            lemma_members_unique(bytes, open + 1, 1, Seq::empty());
        } else if bytes[open] == 91 {
            lemma_items_are_array(bytes, open + 1, 1, Seq::empty());
        }
    }
}

proof fn lemma_items_are_array(bytes: Seq<u8>, at: int, depth: nat, items: Seq<Json>)
    ensures
        items_at(bytes, at, depth, items) matches Some((value, _)) ==> value is Array,
    decreases bytes.len() - at,
{
    if let Some((item, behind)) = value_at(bytes, at, depth) {
        let end = skip_space(bytes, behind);
        if 0 <= at < end < bytes.len() && bytes[end] == 44 {
            lemma_items_are_array(bytes, end + 1, depth, items.push(item));
        }
    }
}

proof fn lemma_members_unique(
    bytes: Seq<u8>,
    at: int,
    depth: nat,
    members: Seq<(Seq<char>, Json)>,
)
    requires
        unique_keys(members),
    ensures
        members_at(bytes, at, depth, members) matches Some((Json::Object(all), _)) ==> unique_keys(
            all,
        ),
    decreases bytes.len() - at,
{
    if let Some((key, key_end)) = string_at(bytes, skip_space(bytes, at)) {
        let colon = skip_space(bytes, key_end);
        if !has_key(members, key) && 0 <= at < colon < bytes.len() && bytes[colon] == 58 {
            if let Some((value, behind)) = value_at(bytes, colon + 1, depth) {
                let end = skip_space(bytes, behind);
                let more = members.push((key, value));
                assert(unique_keys(more)) by {
                    assert forall|i: int, j: int|
                        0 <= i < j < more.len() implies #[trigger] more[i].0
                        != #[trigger] more[j].0 by {
                        if j == members.len() {
                            assert(members[i].0 != key);
                        } else {
                            assert(members[i].0 != members[j].0);
                        }
                    }
                }
                if colon < end < bytes.len() && bytes[end] == 44 {
                    lemma_members_unique(bytes, end + 1, depth, more);
                }
            }
        }
    }
}

/// The quoted JSON string of a text.
pub uninterp spec fn json_quoted(text: Seq<char>) -> Seq<char>;

/// Whether a text holds no line break.
pub open spec fn on_one_line(text: Seq<char>) -> bool {
    forall|i: int| 0 <= i < text.len() ==> #[trigger] text[i] != '\n'
}

/// Whether no number of a value holds a line break.
pub open spec fn numbers_on_one_line(value: Json) -> bool
    decreases value,
{
    match value {
        Json::Number(text) => on_one_line(text),
        Json::Array(items) => items_on_one_line(items),
        Json::Object(members) => members_on_one_line(members),
        _ => true,
    }
}

/// Whether no number of items holds a line break.
pub open spec fn items_on_one_line(items: Seq<Json>) -> bool
    decreases items,
{
    items.len() == 0 || items_on_one_line(items.subrange(0, items.len() - 1))
        && numbers_on_one_line(items[items.len() - 1])
}

/// Whether no number of members holds a line break.
pub open spec fn members_on_one_line(members: Seq<(Seq<char>, Json)>) -> bool
    decreases members,
{
    members.len() == 0 || members_on_one_line(members.subrange(0, members.len() - 1))
        && numbers_on_one_line(members[members.len() - 1].1)
}

proof fn lemma_item_on_one_line(items: Seq<Json>, at: int)
    requires
        items_on_one_line(items),
        0 <= at < items.len(),
    ensures
        numbers_on_one_line(items[at]),
    decreases items.len(),
{
    if at < items.len() - 1 {
        lemma_item_on_one_line(items.subrange(0, items.len() - 1), at);
    }
}

proof fn lemma_member_on_one_line(members: Seq<(Seq<char>, Json)>, at: int)
    requires
        members_on_one_line(members),
        0 <= at < members.len(),
    ensures
        numbers_on_one_line(members[at].1),
    decreases members.len(),
{
    if at < members.len() - 1 {
        lemma_member_on_one_line(members.subrange(0, members.len() - 1), at);
    }
}

/// Calls `serde_json::to_string` for a text. Claimed of it: it succeeds, the quoted string depends
/// on the text alone, and it holds no line break, since control characters are escaped.
#[verifier::external_body]
pub(crate) fn quote(text: &str) -> (quoted: Option<String>)
    ensures
        quoted is Some,
        quoted->0@ == json_quoted(text@),
        on_one_line(quoted->0@),
{
    serde_json::to_string(text).ok()
}

/// The text of a value as JSON without insignificant whitespace.
pub open spec fn json_text(value: Json) -> Seq<char>
    decreases value,
{
    match value {
        Json::Null => "null"@,
        Json::Bool(flag) => if flag {
            "true"@
        } else {
            "false"@
        },
        Json::Number(text) => text,
        Json::Text(text) => json_quoted(text),
        Json::Array(items) => seq!['['] + items_text(items) + if items.len() == 0 {
            seq![']']
        } else {
            Seq::empty()
        },
        Json::Object(members) => seq!['{'] + members_text(members) + if members.len() == 0 {
            seq!['}']
        } else {
            Seq::empty()
        },
    }
}

/// The texts of all but the last item, each with the comma behind it.
pub open spec fn leading_items_text(items: Seq<Json>) -> Seq<char>
    decreases items,
{
    if items.len() == 0 {
        Seq::empty()
    } else {
        leading_items_text(items.subrange(0, items.len() - 1)) + json_text(
            items[items.len() - 1],
        ) + seq![',']
    }
}

/// The texts of items with commas between them, and the bracket behind the last.
pub open spec fn items_text(items: Seq<Json>) -> Seq<char>
    decreases items,
{
    if items.len() == 0 {
        Seq::empty()
    } else {
        leading_items_text(items.subrange(0, items.len() - 1)) + json_text(
            items[items.len() - 1],
        ) + seq![']']
    }
}

/// The texts of members, each with the comma behind it.
pub open spec fn leading_members_text(members: Seq<(Seq<char>, Json)>) -> Seq<char>
    decreases members,
{
    if members.len() == 0 {
        Seq::empty()
    } else {
        leading_members_text(members.subrange(0, members.len() - 1)) + json_quoted(
            members[members.len() - 1].0,
        ) + seq![':'] + json_text(members[members.len() - 1].1) + seq![',']
    }
}

/// The texts of members with commas between them, and the brace behind the last.
pub open spec fn members_text(members: Seq<(Seq<char>, Json)>) -> Seq<char>
    decreases members,
{
    if members.len() == 0 {
        Seq::empty()
    } else {
        leading_members_text(members.subrange(0, members.len() - 1)) + json_quoted(
            members[members.len() - 1].0,
        ) + seq![':'] + json_text(members[members.len() - 1].1) + seq!['}']
    }
}

/// The number of bytes of the quoted JSON string of a text.
pub open spec fn quoted_length(text: Seq<char>) -> nat {
    encode_utf8(json_quoted(text)).len()
}

/// The number of bytes of a value as JSON without insignificant whitespace.
pub open spec fn json_length(value: Json) -> nat
    decreases value,
{
    match value {
        Json::Null => 4,
        Json::Bool(flag) => if flag {
            4
        } else {
            5
        },
        Json::Number(text) => encode_utf8(text).len(),
        Json::Text(text) => quoted_length(text),
        Json::Array(items) => 1 + items_length(items) + if items.len() == 0 {
            1nat
        } else {
            0nat
        },
        Json::Object(members) => 1 + members_length(members) + if members.len() == 0 {
            1nat
        } else {
            0nat
        },
    }
}

/// The number of bytes of items, each with the comma or the bracket behind it.
pub open spec fn items_length(items: Seq<Json>) -> nat
    decreases items,
{
    if items.len() == 0 {
        0
    } else {
        items_length(items.subrange(0, items.len() - 1)) + json_length(items[items.len() - 1]) + 1
    }
}

/// The number of bytes of members, each with the comma or the brace behind it.
pub open spec fn members_length(members: Seq<(Seq<char>, Json)>) -> nat
    decreases members,
{
    if members.len() == 0 {
        0
    } else {
        members_length(members.subrange(0, members.len() - 1)) + quoted_length(
            members[members.len() - 1].0,
        ) + 1 + json_length(members[members.len() - 1].1) + 1
    }
}

proof fn lemma_encode_concat(left: Seq<char>, right: Seq<char>)
    ensures
        encode_utf8(left + right) == encode_utf8(left) + encode_utf8(right),
    decreases left.len(),
{
    if left.len() == 0 {
        assert(left + right =~= right);
        assert(encode_utf8(left) =~= Seq::empty());
        assert(encode_utf8(left) + encode_utf8(right) =~= encode_utf8(right));
    } else {
        lemma_encode_concat(left.drop_first(), right);
        assert((left + right).drop_first() =~= left.drop_first() + right);
        assert(encode_utf8(left + right) =~= encode_utf8(left) + encode_utf8(right));
    }
}

proof fn lemma_ascii_char_length(c: char)
    requires
        c as u32 <= 127,
    ensures
        encode_utf8(seq![c]).len() == 1,
{
    let one = seq![c];
    assert(vstd::utf8::is_ascii_chars(one));
    vstd::utf8::is_ascii_chars_encode_utf8(one);
}

proof fn lemma_literal_lengths()
    ensures
        encode_utf8("null"@).len() == 4,
        encode_utf8("true"@).len() == 4,
        encode_utf8("false"@).len() == 5,
{
    reveal_strlit("null");
    reveal_strlit("true");
    reveal_strlit("false");
    assert(vstd::utf8::is_ascii_chars("null"@));
    assert(vstd::utf8::is_ascii_chars("true"@));
    assert(vstd::utf8::is_ascii_chars("false"@));
    vstd::utf8::is_ascii_chars_encode_utf8("null"@);
    vstd::utf8::is_ascii_chars_encode_utf8("true"@);
    vstd::utf8::is_ascii_chars_encode_utf8("false"@);
}

/// The counted length of a value is the number of bytes of its text.
pub proof fn json_length_is_that_of_the_text(value: Json)
    ensures
        json_length(value) == encode_utf8(json_text(value)).len(),
    decreases value, 0nat,
{
    lemma_literal_lengths();
    lemma_ascii_char_length('[');
    lemma_ascii_char_length(']');
    lemma_ascii_char_length('{');
    lemma_ascii_char_length('}');
    match value {
        Json::Array(items) => {
            lemma_items_text_length(items);
            let close = if items.len() == 0 {
                seq![']']
            } else {
                Seq::empty()
            };
            lemma_encode_concat(seq!['['] + items_text(items), close);
            lemma_encode_concat(seq!['['], items_text(items));
            assert(encode_utf8(Seq::<char>::empty()) =~= Seq::empty());
        },
        Json::Object(members) => {
            lemma_members_text_length(members);
            let close = if members.len() == 0 {
                seq!['}']
            } else {
                Seq::empty()
            };
            lemma_encode_concat(seq!['{'] + members_text(members), close);
            lemma_encode_concat(seq!['{'], members_text(members));
            assert(encode_utf8(Seq::<char>::empty()) =~= Seq::empty());
        },
        _ => {},
    }
}

proof fn lemma_items_text_length(items: Seq<Json>)
    ensures
        items_length(items) == encode_utf8(items_text(items)).len(),
        items_length(items) == encode_utf8(leading_items_text(items)).len(),
    decreases items, 1nat,
{
    if items.len() == 0 {
        assert(encode_utf8(Seq::<char>::empty()) =~= Seq::empty());
    } else {
        let shorter = items.subrange(0, items.len() - 1);
        let last = items[items.len() - 1];
        lemma_items_text_length(shorter);
        json_length_is_that_of_the_text(last);
        lemma_ascii_char_length(',');
        lemma_ascii_char_length(']');
        let head = leading_items_text(shorter);
        lemma_encode_concat(head, json_text(last));
        lemma_encode_concat(head + json_text(last), seq![',']);
        lemma_encode_concat(head + json_text(last), seq![']']);
    }
}

proof fn lemma_members_text_length(members: Seq<(Seq<char>, Json)>)
    ensures
        members_length(members) == encode_utf8(members_text(members)).len(),
        members_length(members) == encode_utf8(leading_members_text(members)).len(),
    decreases members, 1nat,
{
    if members.len() == 0 {
        assert(encode_utf8(Seq::<char>::empty()) =~= Seq::empty());
    } else {
        let shorter = members.subrange(0, members.len() - 1);
        let last = members[members.len() - 1];
        lemma_members_text_length(shorter);
        json_length_is_that_of_the_text(last.1);
        lemma_ascii_char_length(',');
        lemma_ascii_char_length('}');
        lemma_ascii_char_length(':');
        let head = leading_members_text(shorter);
        let key = json_quoted(last.0);
        lemma_encode_concat(head, key);
        lemma_encode_concat(head + key, seq![':']);
        lemma_encode_concat(head + key + seq![':'], json_text(last.1));
        lemma_encode_concat(head + key + seq![':'] + json_text(last.1), seq![',']);
        lemma_encode_concat(head + key + seq![':'] + json_text(last.1), seq!['}']);
    }
}

/// Appends the text of a value.
pub fn append_json(out: &mut String, value: &JsonValue)
    ensures
        final(out)@ == old(out)@ + json_text(value.model()),
        on_one_line(old(out)@) && numbers_on_one_line(value.model()) ==> on_one_line(final(out)@),
    decreases value,
{
    proof {
        reveal_strlit("null");
        reveal_strlit("true");
        reveal_strlit("false");
    }
    match value {
        JsonValue::Null => out.append("null"),
        JsonValue::Bool(flag) => if *flag {
            out.append("true")
        } else {
            out.append("false")
        },
        JsonValue::Number(text) => out.append(text.as_str()),
        JsonValue::String(text) => append_quoted(out, text),
        JsonValue::Array(items) => {
            proof {
                lemma_array_model(*items);
            }
            append_items(out, items)
        },
        JsonValue::Object(object) => {
            proof {
                lemma_object_model(*object);
            }
            append_members(out, &object.members)
        },
    }
}

fn append_items(out: &mut String, items: &Vec<JsonValue>)
    ensures
        final(out)@ == old(out)@ + json_text(Json::Array(item_models(items@))),
        on_one_line(old(out)@) && items_on_one_line(item_models(items@)) ==> on_one_line(
            final(out)@,
        ),
    decreases items,
{
    let ghost models = item_models(items@);
    let ghost start = out@;
    proof {
        reveal_strlit("[");
        reveal_strlit("]");
        reveal_strlit(",");
        assert("["@ =~= seq!['[']);
        assert("]"@ =~= seq![']']);
        assert(","@ =~= seq![',']);
    }
    out.append("[");
    let count: usize = items.len();
    let mut index: usize = 0;
    assert(models.subrange(0, 0) =~= Seq::empty());
    assert(start + seq!['['] + leading_items_text(models.subrange(0, 0)) =~= start
        + seq!['[']);
    while index < count
        invariant
            index <= count,
            count == items@.len(),
            models == item_models(items@),
            "]"@ == seq![']'],
            ","@ == seq![','],
            on_one_line(start) && items_on_one_line(models) ==> on_one_line(out@),
            index < count || count == 0 ==> out@ == start + seq!['[']
                + leading_items_text(models.subrange(0, index as int)),
            index == count && count > 0 ==> out@ == start + seq!['['] + items_text(models),
        decreases count - index,
    {
        proof {
            let more = models.subrange(0, index + 1);
            assert(more.subrange(0, more.len() - 1) =~= models.subrange(0, index as int));
            assert(more[more.len() - 1] == items@[index as int].model());
            assert(index + 1 == count ==> more =~= models);
            if items_on_one_line(models) {
                lemma_item_on_one_line(models, index as int);
            }
        }
        append_json(out, &items[index]);
        let ghost text = json_text(items@[index as int].model());
        let ghost head = leading_items_text(models.subrange(0, index as int));
        index = index + 1;
        if index < count {
            out.append(",");
            assert(out@ =~= start + seq!['['] + (head + text + seq![',']));
        } else {
            out.append("]");
            assert(out@ =~= start + seq!['['] + (head + text + seq![']']));
        }
    }
    if count == 0 {
        out.append("]");
        assert(out@ =~= start + (seq!['['] + items_text(models) + seq![']']));
    } else {
        assert(out@ =~= start + (seq!['['] + items_text(models) + Seq::empty()));
    }
}

fn append_quoted(out: &mut String, text: &String)
    ensures
        final(out)@ == old(out)@ + json_quoted(text@),
        on_one_line(old(out)@) ==> on_one_line(final(out)@),
{
    match quote(text.as_str()) {
        Some(quoted) => out.append(quoted.as_str()),
        None => {},
    }
}

fn append_members(out: &mut String, members: &Vec<(String, JsonValue)>)
    ensures
        final(out)@ == old(out)@ + json_text(Json::Object(member_models(members@))),
        on_one_line(old(out)@) && members_on_one_line(member_models(members@)) ==> on_one_line(
            final(out)@,
        ),
    decreases members,
{
    let ghost models = member_models(members@);
    let ghost start = out@;
    proof {
        reveal_strlit("{");
        reveal_strlit("}");
        reveal_strlit(",");
        reveal_strlit(":");
        assert("{"@ =~= seq!['{']);
        assert("}"@ =~= seq!['}']);
        assert(","@ =~= seq![',']);
        assert(":"@ =~= seq![':']);
    }
    out.append("{");
    let count: usize = members.len();
    let mut index: usize = 0;
    assert(models.subrange(0, 0) =~= Seq::empty());
    assert(start + seq!['{'] + leading_members_text(models.subrange(0, 0)) =~= start + seq!['{']);
    while index < count
        invariant
            index <= count,
            count == members@.len(),
            models == member_models(members@),
            "}"@ == seq!['}'],
            ","@ == seq![','],
            ":"@ == seq![':'],
            on_one_line(start) && members_on_one_line(models) ==> on_one_line(out@),
            index < count || count == 0 ==> out@ == start + seq!['{'] + leading_members_text(
                models.subrange(0, index as int),
            ),
            index == count && count > 0 ==> out@ == start + seq!['{'] + members_text(models),
        decreases count - index,
    {
        proof {
            let more = models.subrange(0, index + 1);
            assert(more.subrange(0, more.len() - 1) =~= models.subrange(0, index as int));
            assert(more[more.len() - 1] == (
                members@[index as int].0@,
                members@[index as int].1.model(),
            ));
            assert(index + 1 == count ==> more =~= models);
            if members_on_one_line(models) {
                lemma_member_on_one_line(models, index as int);
            }
        }
        let ghost key = json_quoted(members@[index as int].0@);
        let ghost text = json_text(members@[index as int].1.model());
        let ghost head = leading_members_text(models.subrange(0, index as int));
        append_quoted(out, &members[index].0);
        out.append(":");
        append_json(out, &members[index].1);
        index = index + 1;
        if index < count {
            out.append(",");
            assert(out@ =~= start + seq!['{'] + (head + key + seq![':'] + text + seq![',']));
        } else {
            out.append("}");
            assert(out@ =~= start + seq!['{'] + (head + key + seq![':'] + text + seq!['}']));
        }
    }
    if count == 0 {
        out.append("}");
        assert(out@ =~= start + (seq!['{'] + members_text(models) + seq!['}']));
    } else {
        assert(out@ =~= start + (seq!['{'] + members_text(models) + Seq::empty()));
    }
}

/// Members in the order of their keys with one member more.
pub open spec fn with_member(
    ordered: Seq<(Seq<char>, Json)>,
    member: (Seq<char>, Json),
) -> Seq<(Seq<char>, Json)>
    decreases ordered.len(),
{
    if ordered.len() > 0 && text_precedes(member.0, ordered.last().0, 0) {
        with_member(ordered.drop_last(), member).push(ordered.last())
    } else {
        ordered.push(member)
    }
}

/// A value in which the members of each object stand in the order of their keys.
pub open spec fn ordered_json(value: Json) -> Json
    decreases value,
{
    match value {
        Json::Array(items) => Json::Array(ordered_items(items)),
        Json::Object(members) => Json::Object(ordered_members(members)),
        _ => value,
    }
}

/// Items in which the members of each object stand in the order of their keys.
pub open spec fn ordered_items(items: Seq<Json>) -> Seq<Json>
    decreases items,
{
    if items.len() == 0 {
        Seq::empty()
    } else {
        ordered_items(items.subrange(0, items.len() - 1)).push(ordered_json(items[items.len() - 1]))
    }
}

/// Members in the order of their keys.
pub open spec fn ordered_members(members: Seq<(Seq<char>, Json)>) -> Seq<(Seq<char>, Json)>
    decreases members,
{
    if members.len() == 0 {
        Seq::empty()
    } else {
        with_member(
            ordered_members(members.subrange(0, members.len() - 1)),
            (members[members.len() - 1].0, ordered_json(members[members.len() - 1].1)),
        )
    }
}

proof fn lemma_with_member(
    ordered: Seq<(Seq<char>, Json)>,
    member: (Seq<char>, Json),
    place: int,
)
    requires
        0 <= place <= ordered.len(),
        forall|i: int|
            place <= i < ordered.len() ==> text_precedes(member.0, (#[trigger] ordered[i]).0, 0),
        place == 0 || !text_precedes(member.0, ordered[place - 1].0, 0),
    ensures
        with_member(ordered, member) == ordered.insert(place, member),
    decreases ordered.len() - place,
{
    if place < ordered.len() {
        let shorter = ordered.drop_last();
        assert(text_precedes(member.0, ordered[ordered.len() - 1].0, 0));
        lemma_with_member(shorter, member, place);
        assert(shorter.insert(place, member).push(ordered.last()) =~= ordered.insert(
            place,
            member,
        ));
    } else {
        assert(ordered.insert(place, member) =~= ordered.push(member));
    }
}

/// Copies a value, with the members of each object in the order of their keys.
fn order_value(value: &JsonValue) -> (r: JsonValue)
    ensures
        r.model() == ordered_json(value.model()),
    decreases value,
{
    match value {
        JsonValue::Null => JsonValue::Null,
        JsonValue::Bool(flag) => JsonValue::Bool(*flag),
        JsonValue::Number(text) => JsonValue::Number(text.clone()),
        JsonValue::String(text) => JsonValue::String(text.clone()),
        JsonValue::Array(items) => {
            let ordered: Vec<JsonValue> = order_items(items);
            proof {
                lemma_array_model(*items);
                lemma_array_model(ordered);
            }
            JsonValue::Array(ordered)
        },
        JsonValue::Object(object) => {
            let ordered: JsonObject = JsonObject { members: order_members(&object.members) };
            proof {
                lemma_object_model(*object);
                lemma_object_model(ordered);
            }
            JsonValue::Object(ordered)
        },
    }
}

fn order_items(items: &Vec<JsonValue>) -> (r: Vec<JsonValue>)
    ensures
        item_models(r@) == ordered_items(item_models(items@)),
    decreases items,
{
    let ghost models = item_models(items@);
    let mut ordered: Vec<JsonValue> = Vec::new();
    let mut index: usize = 0;
    assert(models.subrange(0, 0) =~= Seq::empty());
    assert(item_models(ordered@) =~= Seq::empty());
    while index < items.len()
        invariant
            index <= items@.len(),
            models == item_models(items@),
            item_models(ordered@) == ordered_items(models.subrange(0, index as int)),
        decreases items@.len() - index,
    {
        let ghost before = item_models(ordered@);
        let item: JsonValue = order_value(&items[index]);
        let ghost model = item.model();
        ordered.push(item);
        proof {
            let more = models.subrange(0, index + 1);
            assert(more.subrange(0, more.len() - 1) =~= models.subrange(0, index as int));
            assert(more[more.len() - 1] == items@[index as int].model());
            assert(item_models(ordered@) =~= before.push(model));
        }
        index = index + 1;
    }
    assert(models.subrange(0, models.len() as int) =~= models);
    ordered
}

fn order_members(members: &Vec<(String, JsonValue)>) -> (r: Vec<(String, JsonValue)>)
    ensures
        member_models(r@) == ordered_members(member_models(members@)),
    decreases members,
{
    let ghost models = member_models(members@);
    let mut ordered: Vec<(String, JsonValue)> = Vec::new();
    let mut index: usize = 0;
    assert(models.subrange(0, 0) =~= Seq::empty());
    assert(member_models(ordered@) =~= Seq::empty());
    while index < members.len()
        invariant
            index <= members@.len(),
            models == member_models(members@),
            member_models(ordered@) == ordered_members(models.subrange(0, index as int)),
        decreases members@.len() - index,
    {
        let value: JsonValue = order_value(&members[index].1);
        let key: String = members[index].0.clone();
        let ghost before = member_models(ordered@);
        let ghost member = (key@, value.model());
        let mut place: usize = ordered.len();
        while place > 0 && text_before(key.as_str(), ordered[place - 1].0.as_str())
            invariant
                place <= ordered@.len(),
                before == member_models(ordered@),
                member.0 == key@,
                forall|i: int|
                    place <= i < before.len() ==> text_precedes(member.0, (#[trigger] before[i]).0, 0),
            decreases place,
        {
            place = place - 1;
        }
        ordered.insert(place, (key, value));
        proof {
            lemma_with_member(before, member, place as int);
            let more = models.subrange(0, index + 1);
            assert(more.subrange(0, more.len() - 1) =~= models.subrange(0, index as int));
            assert(more[more.len() - 1] == (
                members@[index as int].0@,
                members@[index as int].1.model(),
            ));
            assert(member_models(ordered@) =~= before.insert(place as int, member));
        }
        index = index + 1;
    }
    assert(models.subrange(0, models.len() as int) =~= models);
    ordered
}

/// The text of an object as it is stored: with the members of each object in the order of their
/// keys.
pub open spec fn stored_text(object: Seq<(Seq<char>, Json)>) -> Seq<char> {
    json_text(ordered_json(Json::Object(object)))
}

/// Writes an object as it is stored.
pub fn store_object(object: &JsonObject) -> (r: String)
    ensures
        r@ == stored_text(object@),
{
    let ordered: JsonObject = JsonObject { members: order_members(&object.members) };
    proof {
        lemma_object_model(ordered);
    }
    let mut text: String = String::new();
    append_json(&mut text, &JsonValue::Object(ordered));
    assert(text@ =~= stored_text(object@));
    text
}

proof fn lemma_with_member_length(ordered: Seq<(Seq<char>, Json)>, member: (Seq<char>, Json))
    ensures
        with_member(ordered, member).len() == ordered.len() + 1,
        members_length(with_member(ordered, member)) == members_length(ordered) + quoted_length(
            member.0,
        ) + 1 + json_length(member.1) + 1,
    decreases ordered.len(),
{
    let more = with_member(ordered, member);
    if ordered.len() > 0 && text_precedes(member.0, ordered.last().0, 0) {
        let shorter = ordered.drop_last();
        lemma_with_member_length(shorter, member);
        assert(shorter =~= ordered.subrange(0, ordered.len() - 1));
        assert(more.subrange(0, more.len() - 1) =~= with_member(shorter, member));
    } else {
        assert(more.subrange(0, more.len() - 1) =~= ordered);
    }
}

/// Putting members in the order of their keys does not change how many bytes a value takes.
pub proof fn ordering_keeps_the_length(value: Json)
    ensures
        json_length(ordered_json(value)) == json_length(value),
    decreases value, 0nat,
{
    match value {
        Json::Array(items) => lemma_ordered_items_length(items),
        Json::Object(members) => lemma_ordered_members_length(members),
        _ => {},
    }
}

proof fn lemma_ordered_items_length(items: Seq<Json>)
    ensures
        ordered_items(items).len() == items.len(),
        items_length(ordered_items(items)) == items_length(items),
    decreases items, 1nat,
{
    if items.len() > 0 {
        let shorter = items.subrange(0, items.len() - 1);
        let ordered = ordered_items(items);
        lemma_ordered_items_length(shorter);
        ordering_keeps_the_length(items[items.len() - 1]);
        assert(ordered.subrange(0, ordered.len() - 1) =~= ordered_items(shorter));
    }
}

proof fn lemma_ordered_members_length(members: Seq<(Seq<char>, Json)>)
    ensures
        ordered_members(members).len() == members.len(),
        members_length(ordered_members(members)) == members_length(members),
    decreases members, 1nat,
{
    if members.len() > 0 {
        let shorter = members.subrange(0, members.len() - 1);
        let last = members[members.len() - 1];
        lemma_ordered_members_length(shorter);
        ordering_keeps_the_length(last.1);
        lemma_with_member_length(ordered_members(shorter), (last.0, ordered_json(last.1)));
    }
}

/// An object takes as many bytes when it is stored as are counted for it.
pub proof fn stored_length_is_the_counted_length(object: Seq<(Seq<char>, Json)>)
    ensures
        encode_utf8(stored_text(object)).len() == json_length(Json::Object(object)),
{
    ordering_keeps_the_length(Json::Object(object));
    json_length_is_that_of_the_text(ordered_json(Json::Object(object)));
}

/// Whether no member comes before one that has the lesser key.
pub open spec fn keys_ascend(members: Seq<(Seq<char>, Json)>) -> bool {
    forall|i: int, j: int|
        0 <= i < j < members.len() ==> !text_precedes(
            (#[trigger] members[j]).0,
            (#[trigger] members[i]).0,
            0,
        )
}

proof fn lemma_member_put(ordered: Seq<(Seq<char>, Json)>, member: (Seq<char>, Json))
    requires
        keys_ascend(ordered),
    ensures
        with_member(ordered, member).len() == ordered.len() + 1,
        keys_ascend(with_member(ordered, member)),
        with_member(ordered, member).contains(member),
        forall|i: int|
            0 <= i < ordered.len() ==> with_member(ordered, member).contains(#[trigger] ordered[i]),
        forall|i: int|
            0 <= i < ordered.len() + 1 ==> #[trigger] with_member(ordered, member)[i] == member
                || ordered.contains(with_member(ordered, member)[i]),
    decreases ordered.len(),
{
    let more = with_member(ordered, member);
    if ordered.len() > 0 && text_precedes(member.0, ordered.last().0, 0) {
        let shorter = ordered.drop_last();
        let last = ordered.last();
        let inner = with_member(shorter, member);
        assert(keys_ascend(shorter)) by {
            assert forall|i: int, j: int| 0 <= i < j < shorter.len() implies !text_precedes(
                (#[trigger] shorter[j]).0,
                (#[trigger] shorter[i]).0,
                0,
            ) by {
                assert(shorter[j] == ordered[j] && shorter[i] == ordered[i]);
            }
        }
        lemma_member_put(shorter, member);
        assert(more == inner.push(last));
        assert forall|i: int| 0 <= i < more.len() implies #[trigger] more[i] == member
            || ordered.contains(more[i]) by {
            if i < inner.len() {
                assert(more[i] == inner[i]);
                if inner[i] != member {
                    let k = choose|k: int| 0 <= k < shorter.len() && shorter[k] == inner[i];
                    assert(ordered[k] == more[i]);
                }
            } else {
                assert(ordered[ordered.len() - 1] == more[i]);
            }
        }
        assert forall|i: int, j: int| 0 <= i < j < more.len() implies !text_precedes(
            (#[trigger] more[j]).0,
            (#[trigger] more[i]).0,
            0,
        ) by {
            assert(more[i] == inner[i]);
            if j < inner.len() {
                assert(more[j] == inner[j]);
            } else if inner[i] == member {
                the_order_of_texts_is_total(member.0, member.0, last.0);
            } else {
                let k = choose|k: int| 0 <= k < shorter.len() && shorter[k] == inner[i];
                assert(ordered[k] == inner[i]);
            }
        }
        assert forall|i: int| 0 <= i < ordered.len() implies more.contains(
            #[trigger] ordered[i],
        ) by {
            if i < shorter.len() {
                assert(shorter[i] == ordered[i]);
                let k = choose|k: int| 0 <= k < inner.len() && inner[k] == shorter[i];
                assert(more[k] == ordered[i]);
            } else {
                assert(more[inner.len() as int] == ordered[i]);
            }
        }
        let k = choose|k: int| 0 <= k < inner.len() && inner[k] == member;
        assert(more[k] == member);
    } else {
        assert(more == ordered.push(member));
        assert(more[ordered.len() as int] == member);
        assert forall|i: int| 0 <= i < ordered.len() implies more.contains(
            #[trigger] ordered[i],
        ) by {
            assert(more[i] == ordered[i]);
        }
        assert forall|i: int| 0 <= i < more.len() implies #[trigger] more[i] == member
            || ordered.contains(more[i]) by {
            if i < ordered.len() {
                assert(more[i] == ordered[i]);
            }
        }
        assert forall|i: int, j: int| 0 <= i < j < more.len() implies !text_precedes(
            (#[trigger] more[j]).0,
            (#[trigger] more[i]).0,
            0,
        ) by {
            assert(more[i] == ordered[i]);
            if j < ordered.len() {
                assert(more[j] == ordered[j]);
            } else {
                let last = ordered.last();
                assert(i == ordered.len() - 1 || !text_precedes(last.0, ordered[i].0, 0));
                the_order_of_texts_is_total(member.0, ordered[i].0, last.0);
                the_order_of_texts_is_total(last.0, member.0, ordered[i].0);
                the_order_of_texts_is_total(ordered[i].0, member.0, last.0);
            }
        }
    }
}

/// An object is stored with the members that it has, each with its value, in the order of their
/// keys. So is each object in it, and all else is stored as it is.
pub proof fn stored_members_keep_their_values(
    value: Json,
    items: Seq<Json>,
    members: Seq<(Seq<char>, Json)>,
)
    ensures
        value is Array || value is Object || ordered_json(value) == value,
        ordered_json(Json::Array(items)) == Json::Array(items.map_values(|item: Json| ordered_json(item))),
        match ordered_json(Json::Object(members)) {
            Json::Object(stored) => {
                &&& stored.len() == members.len()
                &&& keys_ascend(stored)
                &&& forall|i: int|
                    0 <= i < members.len() ==> stored.contains(
                        ((#[trigger] members[i]).0, ordered_json(members[i].1)),
                    )
            },
            _ => false,
        },
{
    lemma_items_stored(items);
    lemma_members_stored(members);
}

proof fn lemma_items_stored(items: Seq<Json>)
    ensures
        ordered_items(items) == items.map_values(|item: Json| ordered_json(item)),
    decreases items.len(),
{
    if items.len() > 0 {
        lemma_items_stored(items.subrange(0, items.len() - 1));
    }
    assert(ordered_items(items) =~= items.map_values(|item: Json| ordered_json(item)));
}

proof fn lemma_members_stored(members: Seq<(Seq<char>, Json)>)
    ensures
        ordered_members(members).len() == members.len(),
        keys_ascend(ordered_members(members)),
        forall|i: int|
            0 <= i < members.len() ==> ordered_members(members).contains(
                ((#[trigger] members[i]).0, ordered_json(members[i].1)),
            ),
    decreases members.len(),
{
    if members.len() > 0 {
        let shorter = members.subrange(0, members.len() - 1);
        let last = members[members.len() - 1];
        let before = ordered_members(shorter);
        let stored = ordered_members(members);
        lemma_members_stored(shorter);
        lemma_member_put(before, (last.0, ordered_json(last.1)));
        assert forall|i: int| 0 <= i < members.len() implies stored.contains(
            ((#[trigger] members[i]).0, ordered_json(members[i].1)),
        ) by {
            if i < shorter.len() {
                assert(shorter[i] == members[i]);
                let entry = (members[i].0, ordered_json(members[i].1));
                let k = choose|k: int| 0 <= k < before.len() && before[k] == entry;
                assert(stored.contains(before[k]));
            }
        }
    }
}

/// A value is written as JSON: an array as its items, and an object as its members, each a quoted key
/// with a colon and a value behind it, in their order, between brackets and with a comma between
/// each two of them.
pub proof fn json_is_written_part_by_part(
    items: Seq<Json>,
    item: Json,
    members: Seq<(Seq<char>, Json)>,
    key: Seq<char>,
)
    ensures
        json_text(Json::Array(Seq::empty())) == "[]"@,
        json_text(Json::Array(seq![item])) == "["@ + json_text(item) + "]"@,
        items.len() > 0 ==> json_text(Json::Array(items.push(item))) == json_text(
            Json::Array(items),
        ).drop_last() + ","@ + json_text(item) + "]"@,
        json_text(Json::Object(Seq::empty())) == "{}"@,
        json_text(Json::Object(seq![(key, item)])) == "{"@ + json_quoted(key) + ":"@ + json_text(
            item,
        ) + "}"@,
        members.len() > 0 ==> json_text(Json::Object(members.push((key, item)))) == json_text(
            Json::Object(members),
        ).drop_last() + ","@ + json_quoted(key) + ":"@ + json_text(item) + "}"@,
{
    reveal_strlit("[]");
    reveal_strlit("[");
    reveal_strlit("]");
    reveal_strlit("{}");
    reveal_strlit("{");
    reveal_strlit("}");
    reveal_strlit(",");
    reveal_strlit(":");
    assert(json_text(Json::Array(Seq::empty())) =~= "[]"@);
    assert(json_text(Json::Object(Seq::empty())) =~= "{}"@);
    let one = seq![item];
    assert(one.subrange(0, 0) =~= Seq::empty());
    assert(leading_items_text(one.subrange(0, 0)) =~= Seq::empty());
    assert(json_text(Json::Array(one)) =~= "["@ + json_text(item) + "]"@);
    let single = seq![(key, item)];
    assert(single.subrange(0, 0) =~= Seq::empty());
    assert(leading_members_text(single.subrange(0, 0)) =~= Seq::empty());
    assert(json_text(Json::Object(single)) =~= "{"@ + json_quoted(key) + ":"@ + json_text(item)
        + "}"@);
    if items.len() > 0 {
        let more = items.push(item);
        assert(more.subrange(0, more.len() - 1) =~= items);
        let head = seq!['['] + (leading_items_text(items.subrange(0, items.len() - 1)) + json_text(
            items[items.len() - 1],
        ));
        assert(json_text(Json::Array(items)) =~= head + seq![']']);
        assert(json_text(Json::Array(items)).drop_last() =~= head);
        assert(seq!['['] + leading_items_text(items) =~= head + seq![',']);
        assert(json_text(Json::Array(more)) =~= seq!['['] + leading_items_text(items) + json_text(
            item,
        ) + seq![']']);
        assert(json_text(Json::Array(more)) =~= json_text(Json::Array(items)).drop_last() + ","@
            + json_text(item) + "]"@);
    }
    if members.len() > 0 {
        let more = members.push((key, item));
        assert(more.subrange(0, more.len() - 1) =~= members);
        let last = members[members.len() - 1];
        let head = seq!['{'] + (leading_members_text(members.subrange(0, members.len() - 1))
            + json_quoted(last.0) + seq![':'] + json_text(last.1));
        assert(json_text(Json::Object(members)) =~= head + seq!['}']);
        assert(json_text(Json::Object(members)).drop_last() =~= head);
        assert(seq!['{'] + leading_members_text(members) =~= head + seq![',']);
        assert(json_text(Json::Object(more)) =~= seq!['{'] + leading_members_text(members)
            + json_quoted(key) + seq![':'] + json_text(item) + seq!['}']);
        assert(json_text(Json::Object(more)) =~= json_text(Json::Object(members)).drop_last()
            + ","@ + json_quoted(key) + ":"@ + json_text(item) + "}"@);
    }
}

} // verus!
