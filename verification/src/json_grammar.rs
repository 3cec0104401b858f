//! How JSON values are spelled.

use vstd::prelude::*;
use vstd::utf8::decode_utf8;

use crate::json::{
    false_literal, has_key, items_at, json_number, json_string, literal_at, members_at,
    null_literal, number_end, object_of, skip_space, string_at, string_end, true_literal, value_at,
    Json, MAXIMUM_JSON_CONTAINER_DEPTH,
};

verus! {

/// Whether there is nothing but whitespace between two positions.
pub open spec fn blank(bytes: Seq<u8>, from: int, to: int) -> bool {
    &&& 0 <= from <= to <= bytes.len()
    &&& forall|i: int|
        from <= i < to ==> bytes[i] == 9 || #[trigger] bytes[i] == 10 || bytes[i] == 13 || bytes[i]
            == 32
}

/// Whether a word stands between two positions.
pub open spec fn is_word(bytes: Seq<u8>, from: int, to: int, word: Seq<char>) -> bool {
    &&& 0 <= from <= to <= bytes.len()
    &&& to - from == word.len()
    &&& forall|i: int| 0 <= i < word.len() ==> bytes[from + i] == #[trigger] word[i] as u8
}

/// Whether a quoted text stands between two positions.
pub open spec fn is_text(bytes: Seq<u8>, from: int, to: int, text: Seq<char>) -> bool {
    &&& 0 <= from < to - 1 < bytes.len()
    &&& bytes[from] == '"' as u8 && bytes[to - 1] == '"' as u8
    &&& json_string(bytes.subrange(from, to)) == Some(text)
}

/// Whether a number stands between two positions, and does not go on behind them.
pub open spec fn is_number(bytes: Seq<u8>, from: int, to: int, text: Seq<char>) -> bool {
    &&& 0 <= from < to <= bytes.len()
    &&& bytes[from] == '-' as u8 || '0' as u8 <= bytes[from] <= '9' as u8
    &&& json_number(decode_utf8(bytes.subrange(from, to))) == Some(text)
    &&& to == bytes.len() || blank(bytes, to, to + 1) || bytes[to] == ',' as u8 || bytes[to]
        == ']' as u8 || bytes[to] == '}' as u8
}

/// Whether a value stands between two positions, in which no more than `room` arrays and objects are
/// nested in one another.
pub open spec fn stands(bytes: Seq<u8>, from: int, to: int, value: Json, room: int) -> bool
    decreases value, 0nat,
{
    match value {
        Json::Null => is_word(bytes, from, to, "null"@),
        Json::Bool(true) => is_word(bytes, from, to, "true"@),
        Json::Bool(false) => is_word(bytes, from, to, "false"@),
        Json::Number(text) => is_number(bytes, from, to, text),
        Json::Text(text) => is_text(bytes, from, to, text),
        Json::Array(items) => {
            &&& room > 0
            &&& 0 <= from < to - 1 < bytes.len()
            &&& bytes[from] == '[' as u8 && bytes[to - 1] == ']' as u8
            &&& if items.len() == 0 {
                blank(bytes, from + 1, to - 1)
            } else {
                items_stand(bytes, from + 1, to - 1, items, room - 1)
            }
        },
        Json::Object(members) => {
            &&& room > 0
            &&& 0 <= from < to - 1 < bytes.len()
            &&& bytes[from] == '{' as u8 && bytes[to - 1] == '}' as u8
            &&& if members.len() == 0 {
                blank(bytes, from + 1, to - 1)
            } else {
                members_stand(bytes, from + 1, to - 1, members, room - 1)
            }
        },
    }
}

/// Whether there is a part between two positions, and whitespace around it.
pub open spec fn surrounded(bytes: Seq<u8>, from: int, start: int, end: int, to: int) -> bool {
    blank(bytes, from, start) && start < end && blank(bytes, end, to)
}

/// Whether a value stands between two positions with whitespace around it.
pub open spec fn stands_alone(bytes: Seq<u8>, from: int, to: int, value: Json, room: int) -> bool
    decreases value, 1nat,
{
    exists|start: int, end: int| #[trigger]
        surrounded(bytes, from, start, end, to) && stands(bytes, start, end, value, room)
}

/// Whether a comma parts what stands between two positions.
pub open spec fn parted(bytes: Seq<u8>, from: int, comma: int, to: int) -> bool {
    &&& 0 <= from <= comma < to <= bytes.len()
    &&& bytes[comma] == ',' as u8
}

/// Whether items stand between two positions with a comma between each two of them.
pub open spec fn items_stand(bytes: Seq<u8>, from: int, to: int, items: Seq<Json>, room: int) -> bool
    decreases items, 2nat,
{
    if items.len() == 0 {
        false
    } else if items.len() == 1 {
        stands_alone(bytes, from, to, items[0], room)
    } else {
        exists|comma: int| #[trigger]
            parted(bytes, from, comma, to) && items_stand(
                bytes,
                from,
                comma,
                items.subrange(0, items.len() - 1),
                room,
            ) && stands_alone(bytes, comma + 1, to, items[items.len() - 1], room)
    }
}

/// Whether a key stands between two positions with whitespace around it, and a colon behind.
pub open spec fn is_key(bytes: Seq<u8>, from: int, colon: int, key: Seq<char>) -> bool {
    &&& 0 <= from <= colon < bytes.len()
    &&& bytes[colon] == ':' as u8
    &&& exists|start: int, end: int| #[trigger]
        surrounded(bytes, from, start, end, colon) && is_text(bytes, start, end, key)
}

/// Whether a member stands between two positions: a key, a colon and a value.
pub open spec fn member_stands(
    bytes: Seq<u8>,
    from: int,
    to: int,
    key: Seq<char>,
    value: Json,
    room: int,
) -> bool
    decreases value, 2nat,
{
    exists|colon: int| #[trigger]
        is_key(bytes, from, colon, key) && stands_alone(bytes, colon + 1, to, value, room)
}

/// Whether members stand between two positions with a comma between each two of them.
pub open spec fn members_stand(
    bytes: Seq<u8>,
    from: int,
    to: int,
    members: Seq<(Seq<char>, Json)>,
    room: int,
) -> bool
    decreases members, 3nat,
{
    if members.len() == 0 {
        false
    } else if members.len() == 1 {
        member_stands(bytes, from, to, members[0].0, members[0].1, room)
    } else {
        exists|comma: int| #[trigger]
            parted(bytes, from, comma, to) && members_stand(
                bytes,
                from,
                comma,
                members.subrange(0, members.len() - 1),
                room,
            ) && member_stands(
                bytes,
                comma + 1,
                to,
                members[members.len() - 1].0,
                members[members.len() - 1].1,
                room,
            )
    }
}

proof fn lemma_skipped(bytes: Seq<u8>, at: int)
    requires
        0 <= at <= bytes.len(),
    ensures
        at <= skip_space(bytes, at) <= bytes.len(),
        blank(bytes, at, skip_space(bytes, at)),
    decreases bytes.len() - at,
{
    if at < bytes.len() && (bytes[at] == 9 || bytes[at] == 10 || bytes[at] == 13 || bytes[at]
        == 32) {
        lemma_skipped(bytes, at + 1);
    }
}

proof fn lemma_string_end(bytes: Seq<u8>, at: int, escaped: bool)
    requires
        0 <= at <= bytes.len(),
    ensures
        string_end(bytes, at, escaped) matches Some(end) ==> at < end <= bytes.len() && bytes[end
            - 1] == 34,
    decreases bytes.len() - at,
{
    if at < bytes.len() {
        lemma_string_end(bytes, at + 1, false);
        lemma_string_end(bytes, at + 1, true);
    }
}

proof fn lemma_string(bytes: Seq<u8>, at: int)
    requires
        0 <= at <= bytes.len(),
    ensures
        string_at(bytes, at) matches Some((text, end)) ==> is_text(bytes, at, end, text),
{
    if at < bytes.len() {
        lemma_string_end(bytes, at + 1, false);
    }
}

proof fn lemma_number_end(bytes: Seq<u8>, at: int)
    requires
        0 <= at <= bytes.len(),
    ensures
        at <= number_end(bytes, at) <= bytes.len(),
        ({
            let end = number_end(bytes, at);
            end == bytes.len() || blank(bytes, end, end + 1) || bytes[end] == 44 || bytes[end] == 93
                || bytes[end] == 125
        }),
    decreases bytes.len() - at,
{
    if at < bytes.len() {
        lemma_number_end(bytes, at + 1);
    }
}

proof fn lemma_literal(bytes: Seq<u8>, at: int, literal: Seq<u8>, word: Seq<char>)
    requires
        0 <= at,
        literal_at(bytes, at, literal),
        literal.len() == word.len(),
        forall|i: int| 0 <= i < word.len() ==> literal[i] == #[trigger] word[i] as u8,
    ensures
        is_word(bytes, at, at + literal.len(), word),
{
    assert forall|i: int| 0 <= i < word.len() implies bytes[at + i] == #[trigger] word[i] as u8 by {
        assert(bytes.subrange(at, at + literal.len())[i] == bytes[at + i]);
    }
}

/// What is read of a value, if anything: the value stands behind whitespace, up to where it ends.
proof fn lemma_value(bytes: Seq<u8>, at: int, depth: nat)
    requires
        0 <= at <= bytes.len(),
        depth <= MAXIMUM_JSON_CONTAINER_DEPTH,
    ensures
        value_at(bytes, at, depth) matches Some((value, end)) ==> {
            &&& skip_space(bytes, at) < end <= bytes.len()
            &&& stands(
                bytes,
                skip_space(bytes, at),
                end,
                value,
                MAXIMUM_JSON_CONTAINER_DEPTH - depth,
            )
        },
    decreases bytes.len() - at, 0nat,
{
    let start = skip_space(bytes, at);
    lemma_skipped(bytes, at);
    if start < bytes.len() {
        if bytes[start] == 110 {
            reveal_strlit("null");
            if literal_at(bytes, start, null_literal()) {
                lemma_literal(bytes, start, null_literal(), "null"@);
            }
        } else if bytes[start] == 116 {
            reveal_strlit("true");
            if literal_at(bytes, start, true_literal()) {
                lemma_literal(bytes, start, true_literal(), "true"@);
            }
        } else if bytes[start] == 102 {
            reveal_strlit("false");
            if literal_at(bytes, start, false_literal()) {
                lemma_literal(bytes, start, false_literal(), "false"@);
            }
        } else if bytes[start] == 34 {
            lemma_string(bytes, start);
        } else if bytes[start] == 91 {
            lemma_skipped(bytes, start + 1);
            if depth < MAXIMUM_JSON_CONTAINER_DEPTH {
                lemma_items(bytes, start + 1, depth + 1, Seq::empty(), start + 1);
            }
        } else if bytes[start] == 123 {
            lemma_skipped(bytes, start + 1);
            if depth < MAXIMUM_JSON_CONTAINER_DEPTH {
                lemma_members(bytes, start + 1, depth + 1, Seq::empty(), start + 1);
            }
        } else if bytes[start] == 45 || 48 <= bytes[start] <= 57 {
            lemma_number_end(bytes, start + 1);
            lemma_number_end(bytes, start);
        }
    }
}

proof fn lemma_items(bytes: Seq<u8>, at: int, depth: nat, items: Seq<Json>, first: int)
    requires
        0 <= first <= at <= bytes.len(),
        depth <= MAXIMUM_JSON_CONTAINER_DEPTH,
        items.len() == 0 ==> at == first,
        items.len() > 0 ==> first < at && bytes[at - 1] == 44 && items_stand(
            bytes,
            first,
            at - 1,
            items,
            MAXIMUM_JSON_CONTAINER_DEPTH - depth,
        ),
    ensures
        items_at(bytes, at, depth, items) matches Some((value, end)) ==> {
            &&& at < end <= bytes.len()
            &&& bytes[end - 1] == 93
            &&& value matches Json::Array(all) && items_stand(
                bytes,
                first,
                end - 1,
                all,
                MAXIMUM_JSON_CONTAINER_DEPTH - depth,
            )
        },
    decreases bytes.len() - at, 1nat,
{
    let room = MAXIMUM_JSON_CONTAINER_DEPTH - depth;
    lemma_value(bytes, at, depth);
    lemma_skipped(bytes, at);
    if let Some((item, behind)) = value_at(bytes, at, depth) {
        let end = skip_space(bytes, behind);
        lemma_skipped(bytes, behind);
        if at < end < bytes.len() {
            let more = items.push(item);
            assert(surrounded(bytes, at, skip_space(bytes, at), behind, end));
            assert(stands_alone(bytes, at, end, item, room));
            assert(items_stand(bytes, first, end, more, room)) by {
                if items.len() > 0 {
                    assert(more.subrange(0, more.len() - 1) =~= items);
                    assert(parted(bytes, first, at - 1, end));
                }
            }
            if bytes[end] == 44 {
                lemma_items(bytes, end + 1, depth, more, first);
            }
        }
    }
}

proof fn lemma_members(
    bytes: Seq<u8>,
    at: int,
    depth: nat,
    members: Seq<(Seq<char>, Json)>,
    first: int,
)
    requires
        0 <= first <= at <= bytes.len(),
        depth <= MAXIMUM_JSON_CONTAINER_DEPTH,
        members.len() == 0 ==> at == first,
        members.len() > 0 ==> first < at && bytes[at - 1] == 44 && members_stand(
            bytes,
            first,
            at - 1,
            members,
            MAXIMUM_JSON_CONTAINER_DEPTH - depth,
        ),
    ensures
        members_at(bytes, at, depth, members) matches Some((value, end)) ==> {
            &&& at < end <= bytes.len()
            &&& bytes[end - 1] == 125
            &&& value matches Json::Object(all) && members_stand(
                bytes,
                first,
                end - 1,
                all,
                MAXIMUM_JSON_CONTAINER_DEPTH - depth,
            )
        },
    decreases bytes.len() - at, 1nat,
{
    let room = MAXIMUM_JSON_CONTAINER_DEPTH - depth;
    let start = skip_space(bytes, at);
    lemma_skipped(bytes, at);
    lemma_string(bytes, start);
    if let Some((key, key_end)) = string_at(bytes, start) {
        let colon = skip_space(bytes, key_end);
        lemma_skipped(bytes, key_end);
        if !has_key(members, key) && colon < bytes.len() && bytes[colon] == 58 {
            lemma_value(bytes, colon + 1, depth);
            lemma_skipped(bytes, colon + 1);
            if let Some((value, behind)) = value_at(bytes, colon + 1, depth) {
                let end = skip_space(bytes, behind);
                lemma_skipped(bytes, behind);
                if end < bytes.len() {
                    let more = members.push((key, value));
                    assert(surrounded(bytes, at, start, key_end, colon));
                    assert(is_key(bytes, at, colon, key));
                    assert(surrounded(
                        bytes,
                        colon + 1,
                        skip_space(bytes, colon + 1),
                        behind,
                        end,
                    ));
                    assert(stands_alone(bytes, colon + 1, end, value, room));
                    assert(member_stands(bytes, at, end, key, value, room));
                    assert(members_stand(bytes, first, end, more, room)) by {
                        if members.len() > 0 {
                            assert(more.subrange(0, more.len() - 1) =~= members);
                            assert(parted(bytes, first, at - 1, end));
                        }
                    }
                    if bytes[end] == 44 {
                        lemma_members(bytes, end + 1, depth, more, first);
                    }
                }
            }
        }
    }
}

/// What is read of bytes is what stands in them: one object and whitespace around it, with its
/// members in their order, whose values are read in the same way.
pub proof fn objects_are_read_as_spelled(bytes: Seq<u8>)
    ensures
        object_of(bytes) matches Some(members) ==> stands_alone(
            bytes,
            0,
            bytes.len() as int,
            Json::Object(members),
            MAXIMUM_JSON_CONTAINER_DEPTH as int,
        ),
{
    let first = skip_space(bytes, 0);
    lemma_skipped(bytes, 0);
    lemma_value(bytes, first, 0);
    lemma_skipped(bytes, first);
    if let Some(members) = object_of(bytes) {
        let (_, end) = value_at(bytes, first, 0)->0;
        let start = skip_space(bytes, first);
        lemma_skipped(bytes, end);
        assert(blank(bytes, 0, start));
        assert(surrounded(bytes, 0, start, end, bytes.len() as int));
    }
}

} // verus!
