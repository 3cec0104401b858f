//! What holds of the rows that lines become.

use vstd::prelude::*;
use vstd::string::*;
use vstd::utf8::{encode_utf8, is_ascii_chars, is_ascii_chars_encode_utf8};

use crate::calendar::timestamp_of;
use crate::decimal::{decimal_below, integer_of, FLOAT64_LIMIT};
use crate::ingest::batcher::{
    batch_of, cell_of, column_of, columns_of, has_null, null_fault, rest_fault, row_cell,
};
use crate::ingest::event::EventValueView;
use crate::ingest::line_source::{is_whitespace, text_end, text_start, trimmed};
use crate::ingest::normalizer::{
    coerced, field_place, member_at, normalizer_of, timestamp_coerced, MemberView, NormalizerView,
};
use crate::ingest::schema::{
    contains_dot_dot, duplicate_messages, has_column, reserved_messages, schema_messages,
    table_name_fault, time_names, ColumnDescriptor, ColumnType, SchemaConfig, TableField,
    TableSchema, REST_COLUMN_NAME, TIMESTAMP_COLUMN_NAME,
};
use crate::ingest::stage_error::StageErrorView;
use crate::ingest::storage::{drop_slashes, prefix_of, skip_slashes};
use crate::ingestion::record::ValueView;
use crate::json::{false_literal, json_quoted, true_literal, value_at, Json};

verus! {

/// A member that is present and not null never becomes null in a utf8 column, whether the column
/// is nullable or not: a text becomes itself, and any other JSON value becomes a text that reads
/// back as that value.
pub proof fn utf8_columns_keep_every_value(value: MemberView, nullable: bool, name: Seq<char>)
    requires
        value !is Null,
    ensures
        ({
            &&& coerced(Some(value), ColumnType::Utf8, nullable, name) matches Ok(
                EventValueView::String(text),
            )
            &&& match value {
                MemberView::Null => false,
                MemberView::Text(held) => text == held,
                MemberView::Bool(flag) => value_at(encode_utf8(text), 0, 0) == Some(
                    (Json::Bool(flag), text.len() as int),
                ),
                MemberView::Number(held) => text == held && value_at(encode_utf8(text), 0, 0)
                    == value_at(encode_utf8(held), 0, 0),
                MemberView::Container(held) => text == held && value_at(encode_utf8(text), 0, 0)
                    == value_at(encode_utf8(held), 0, 0),
            }
        }),
{
    if let MemberView::Bool(flag) = value {
        reveal_strlit("true");
        reveal_strlit("false");
        assert(is_ascii_chars("true"@));
        assert(is_ascii_chars("false"@));
        is_ascii_chars_encode_utf8("true"@);
        is_ascii_chars_encode_utf8("false"@);
        assert(encode_utf8("true"@) =~= true_literal());
        assert(encode_utf8("false"@) =~= false_literal());
        let bytes = if flag {
            true_literal()
        } else {
            false_literal()
        };
        assert(bytes.subrange(0, bytes.len() as int) =~= bytes);
    }
}

/// Only what is missing or null becomes null in a column that is no timestamp column, and only
/// where the column is nullable. A value that is not of the column's type is refused.
pub proof fn columns_are_null_only_for_nothing(
    value: Option<MemberView>,
    ty: ColumnType,
    nullable: bool,
    name: Seq<char>,
)
    requires
        ty !is Timestamp,
    ensures
        coerced(value, ty, nullable, name) == Ok::<EventValueView, StageErrorView>(
            EventValueView::Null,
        ) <==> nullable && (value is None || value == Some(MemberView::Null)),
        !nullable && (value is None || value == Some(MemberView::Null)) ==> coerced(
            value,
            ty,
            nullable,
            name,
        ) is Err,
        match value {
            None => true,
            Some(MemberView::Null) => true,
            Some(found) => coerced(value, ty, nullable, name) is Ok == match ty {
                ColumnType::Utf8 => true,
                ColumnType::Bool => found is Bool,
                ColumnType::Int64 | ColumnType::Int32 => {
                    &&& found matches MemberView::Number(text)
                    &&& integer_of(encode_utf8(text)) matches Some(integer)
                    &&& i64::MIN <= integer <= i64::MAX
                },
                ColumnType::Uint64 | ColumnType::Uint32 => {
                    &&& found matches MemberView::Number(text)
                    &&& integer_of(encode_utf8(text)) matches Some(integer)
                    &&& 0 <= integer <= u64::MAX
                    &&& encode_utf8(text)[0] != 45
                },
                ColumnType::Float64 | ColumnType::Float32 => {
                    &&& found matches MemberView::Number(text)
                    &&& decimal_below(encode_utf8(text), FLOAT64_LIMIT@)
                },
                ColumnType::Timestamp => false,
            },
        },
{
}

/// A boolean, a number or a text that a column takes is the value that the member has.
pub proof fn columns_hold_the_value_of_the_member(
    found: MemberView,
    ty: ColumnType,
    nullable: bool,
    name: Seq<char>,
)
    ensures
        coerced(Some(found), ty, nullable, name) matches Ok(value) ==> match value {
            EventValueView::Null => true,
            EventValueView::Bool(flag) => ty is Bool && found == MemberView::Bool(flag),
            EventValueView::Int64(integer) => {
                &&& ty is Int64 || ty is Int32
                &&& found matches MemberView::Number(text)
                &&& integer_of(encode_utf8(text)) == Some(integer as int)
            },
            EventValueView::UInt64(integer) => {
                &&& ty is Uint64 || ty is Uint32
                &&& found matches MemberView::Number(text)
                &&& integer_of(encode_utf8(text)) == Some(integer as int)
            },
            EventValueView::Float64(text) => (ty is Float64 || ty is Float32) && found
                == MemberView::Number(text),
            EventValueView::String(_) => ty is Utf8,
            EventValueView::Timestamp(milliseconds) => ty is Timestamp && match found {
                MemberView::Number(text) => integer_of(encode_utf8(text)) == Some(
                    milliseconds as int,
                ),
                MemberView::Text(text) => timestamp_of(text) == Some(milliseconds),
                _ => false,
            },
        },
{
}

/// A timestamp is the instant that its member denotes. It is null only where the column is
/// nullable, and never for a number: a number that is no integer is refused.
pub proof fn timestamps_denote_their_member(
    value: Option<MemberView>,
    nullable: bool,
    name: Seq<char>,
)
    ensures
        timestamp_coerced(value, nullable, name) matches Ok(made) ==> match made {
            EventValueView::Null => nullable && match value {
                Some(MemberView::Number(_)) => false,
                Some(MemberView::Text(text)) => timestamp_of(text) is None,
                _ => true,
            },
            EventValueView::Timestamp(milliseconds) => match value {
                Some(MemberView::Number(text)) => integer_of(encode_utf8(text)) == Some(
                    milliseconds as int,
                ),
                Some(MemberView::Text(text)) => timestamp_of(text) == Some(milliseconds),
                _ => false,
            },
            _ => false,
        },
        timestamp_coerced(value, nullable, name) is Ok == match value {
            Some(MemberView::Number(text)) => {
                &&& integer_of(encode_utf8(text)) matches Some(integer)
                &&& i64::MIN <= integer <= i64::MAX
            },
            Some(MemberView::Text(text)) => nullable || timestamp_of(text) is Some,
            _ => nullable,
        },
{
}

/// The member that a key finds is the first that has the key.
pub proof fn the_first_member_is_found(members: Seq<(Seq<char>, MemberView)>, key: Seq<char>)
    ensures
        match member_at(members, key) {
            None => forall|i: int| 0 <= i < members.len() ==> (#[trigger] members[i]).0 != key,
            Some(value) => exists|i: int|
                {
                    &&& 0 <= i < members.len()
                    &&& (#[trigger] members[i]) == (key, value)
                    &&& forall|j: int| 0 <= j < i ==> (#[trigger] members[j]).0 != key
                },
        },
    decreases members.len(),
{
    if members.len() > 0 {
        let rest = members.subrange(1, members.len() as int);
        the_first_member_is_found(rest, key);
        if members[0].0 == key {
            assert(members[0] == (key, members[0].1));
        } else {
            match member_at(rest, key) {
                None => {
                    assert forall|i: int| 0 <= i < members.len() implies (
                    #[trigger] members[i]).0 != key by {
                        if i > 0 {
                            assert(rest[i - 1] == members[i]);
                        }
                    }
                },
                Some(value) => {
                    let i = choose|i: int|
                        {
                            &&& 0 <= i < rest.len()
                            &&& (#[trigger] rest[i]) == (key, value)
                            &&& forall|j: int| 0 <= j < i ==> (#[trigger] rest[j]).0 != key
                        };
                    assert(members[i + 1] == (key, value));
                    assert forall|j: int| 0 <= j < i + 1 implies (#[trigger] members[j]).0
                        != key by {
                        if j > 0 {
                            assert(rest[j - 1] == members[j]);
                        }
                    }
                },
            }
        }
    }
}

proof fn lemma_field_place(fields: Seq<TableField>, name: Seq<char>, from: int)
    requires
        0 <= from,
    ensures
        field_place(fields, name, from) matches Some(place) ==> from <= place < fields.len()
            && fields[place].name@ == name,
    decreases fields.len() - from,
{
    if from < fields.len() && fields[from].name@ != name {
        lemma_field_place(fields, name, from + 1);
    }
}

proof fn lemma_row_through(
    view: NormalizerView,
    members: Seq<(Seq<char>, MemberView)>,
    count: int,
    place: int,
)
    requires
        0 <= count <= view.fields.len(),
        0 <= place < view.fields.len(),
        0 <= view.timestamp_index < view.fields.len(),
        place != view.timestamp_index,
        view.fields[place].name@ != TIMESTAMP_COLUMN_NAME@,
        view.fields[place].name@ != REST_COLUMN_NAME@,
    ensures
        view.row_through(members, count) matches Ok(values) ==> {
            &&& values.len() == view.fields.len()
            &&& place >= count ==> values[place] is Null
            &&& place < count ==> coerced(
                member_at(members, view.fields[place].name@),
                view.fields[place].ty,
                view.fields[place].nullable,
                view.fields[place].name@,
            ) == Ok::<EventValueView, StageErrorView>(values[place])
        },
    decreases count,
{
    if count > 0 {
        lemma_row_through(view, members, count - 1, place);
    }
}

/// In a row that a line becomes, each field but those of the event time and of the rest holds what
/// the first member with its name becomes in it, and a line with a member that its field does not
/// take becomes no row.
pub proof fn every_field_takes_its_own_member(
    schema: TableSchema,
    view: NormalizerView,
    members: Seq<(Seq<char>, MemberView)>,
    values: Seq<EventValueView>,
    place: int,
)
    requires
        normalizer_of(schema) == Ok::<NormalizerView, StageErrorView>(view),
        view.row(members) == Ok::<Seq<EventValueView>, StageErrorView>(values),
        0 <= place < schema.fields@.len(),
        schema.fields@[place].name@ != TIMESTAMP_COLUMN_NAME@,
        schema.fields@[place].name@ != REST_COLUMN_NAME@,
    ensures
        values.len() == schema.fields@.len(),
        coerced(
            member_at(members, schema.fields@[place].name@),
            schema.fields@[place].ty,
            schema.fields@[place].nullable,
            schema.fields@[place].name@,
        ) == Ok::<EventValueView, StageErrorView>(values[place]),
        values[place] is Null && schema.fields@[place].ty !is Timestamp ==> forall|i: int|
            0 <= i < members.len() && (#[trigger] members[i]).0 == schema.fields@[place].name@
                && (forall|j: int|
                0 <= j < i ==> (#[trigger] members[j]).0 != schema.fields@[place].name@)
                ==> members[i].1 is Null,
{
    let name = schema.fields@[place].name@;
    lemma_field_place(schema.fields@, TIMESTAMP_COLUMN_NAME@, 0);
    lemma_field_place(schema.fields@, REST_COLUMN_NAME@, 0);
    lemma_row_through(view, members, view.fields.len() as int, place);
    the_first_member_is_found(members, name);
    if schema.fields@[place].ty !is Timestamp {
        columns_are_null_only_for_nothing(
            member_at(members, name),
            schema.fields@[place].ty,
            schema.fields@[place].nullable,
            name,
        );
    }
}

proof fn lemma_time_through(
    view: NormalizerView,
    members: Seq<(Seq<char>, MemberView)>,
    count: int,
)
    requires
        0 <= count <= view.fields.len(),
        0 <= view.timestamp_index < view.fields.len(),
        view.fields[view.timestamp_index].name@ == TIMESTAMP_COLUMN_NAME@,
        TIMESTAMP_COLUMN_NAME@ != REST_COLUMN_NAME@,
    ensures
        view.row_through(members, count) matches Ok(values) ==> {
            &&& values.len() == view.fields.len()
            &&& view.timestamp_index < count ==> exists|nullable: bool| #[trigger]
                timestamp_coerced(
                    member_at(members, view.time_source),
                    nullable,
                    TIMESTAMP_COLUMN_NAME@,
                ) == Ok::<EventValueView, StageErrorView>(values[view.timestamp_index])
        },
    decreases count,
{
    if count > 0 {
        lemma_time_through(view, members, count - 1);
    }
}

/// In a row that a line becomes, the field of the event time holds the instant that the member
/// named as the time source denotes.
pub proof fn the_event_time_is_that_of_its_source(
    schema: TableSchema,
    view: NormalizerView,
    members: Seq<(Seq<char>, MemberView)>,
    values: Seq<EventValueView>,
)
    requires
        normalizer_of(schema) == Ok::<NormalizerView, StageErrorView>(view),
        view.row(members) == Ok::<Seq<EventValueView>, StageErrorView>(values),
    ensures
        0 <= view.timestamp_index < values.len(),
        schema.fields@[view.timestamp_index].name@ == TIMESTAMP_COLUMN_NAME@,
        match values[view.timestamp_index] {
            EventValueView::Timestamp(milliseconds) => match member_at(members, view.time_source) {
                Some(MemberView::Number(text)) => integer_of(encode_utf8(text)) == Some(
                    milliseconds as int,
                ),
                Some(MemberView::Text(text)) => timestamp_of(text) == Some(milliseconds),
                _ => false,
            },
            EventValueView::Null => match member_at(members, view.time_source) {
                Some(MemberView::Number(_)) => false,
                Some(MemberView::Text(text)) => timestamp_of(text) is None,
                _ => true,
            },
            _ => false,
        },
{
    reveal_strlit("@timestamp");
    reveal_strlit("@rest");
    lemma_field_place(schema.fields@, TIMESTAMP_COLUMN_NAME@, 0);
    lemma_field_place(schema.fields@, REST_COLUMN_NAME@, 0);
    assert(TIMESTAMP_COLUMN_NAME@.len() != REST_COLUMN_NAME@.len());
    lemma_time_through(view, members, view.fields.len() as int);
    let nullable = choose|nullable: bool| #[trigger]
        timestamp_coerced(
            member_at(members, view.time_source),
            nullable,
            TIMESTAMP_COLUMN_NAME@,
        ) == Ok::<EventValueView, StageErrorView>(values[view.timestamp_index]);
    timestamps_denote_their_member(
        member_at(members, view.time_source),
        nullable,
        TIMESTAMP_COLUMN_NAME@,
    );
}

/// Whether a field or the event time takes a member: a field other than that of the rest has its
/// key as name, or it is the time source.
pub open spec fn is_taken(schema: TableSchema, member: (Seq<char>, MemberView)) -> bool {
    ||| exists|i: int|
        0 <= i < schema.fields@.len() && (#[trigger] schema.fields@[i]).name@ == member.0
            && member.0 != REST_COLUMN_NAME@
    ||| schema.time_source matches Some(source) && source@.len() > 0 && source@ == member.0
}

proof fn lemma_unknown(
    schema: TableSchema,
    view: NormalizerView,
    members: Seq<(Seq<char>, MemberView)>,
)
    requires
        normalizer_of(schema) == Ok::<NormalizerView, StageErrorView>(view),
    ensures
        view.unknown(members) == members.filter(
            |member: (Seq<char>, MemberView)| !is_taken(schema, member),
        ),
    decreases members.len(),
{
    reveal(Seq::filter);
    if members.len() > 0 {
        let last = members.last();
        lemma_unknown(schema, view, members.drop_last());
        if is_taken(schema, last) {
            if exists|i: int|
                0 <= i < schema.fields@.len() && (#[trigger] schema.fields@[i]).name@ == last.0
                    && last.0 != REST_COLUMN_NAME@ {
                let i = choose|i: int|
                    0 <= i < schema.fields@.len() && (#[trigger] schema.fields@[i]).name@ == last.0
                        && last.0 != REST_COLUMN_NAME@;
                assert(view.fields[i].name@ == last.0);
            }
            assert(view.knows(last.0));
        } else {
            assert forall|i: int|
                0 <= i < view.fields.len() implies !((#[trigger] view.fields[i]).name@
                != REST_COLUMN_NAME@ && view.fields[i].name@ == last.0) by {
                assert(schema.fields@[i] == view.fields[i]);
            }
            assert(!view.knows(last.0));
        }
    }
}

/// The field of the rest is null exactly if every member is taken. Otherwise it holds an object in
/// which the members that nothing takes stand in their order: its text begins with the first of
/// them, and each of the others stands behind a comma.
pub proof fn the_rest_holds_what_is_not_taken(
    schema: TableSchema,
    view: NormalizerView,
    members: Seq<(Seq<char>, MemberView)>,
    values: Seq<EventValueView>,
)
    requires
        normalizer_of(schema) == Ok::<NormalizerView, StageErrorView>(view),
        view.row(members) == Ok::<Seq<EventValueView>, StageErrorView>(values),
    ensures
        0 <= view.rest_index < values.len(),
        schema.fields@[view.rest_index].name@ == REST_COLUMN_NAME@,
        ({
            let left = members.filter(
                |member: (Seq<char>, MemberView)| !is_taken(schema, member),
            );
            match values[view.rest_index] {
                EventValueView::Null => left.len() == 0,
                EventValueView::String(text) => {
                    &&& left.len() > 0
                    &&& exists|parts: Seq<Seq<char>>|
                        {
                            &&& parts.len() == left.len()
                            &&& forall|i: int|
                                0 <= i < parts.len() ==> #[trigger] parts[i] == entry_text(left[i])
                            &&& text == seq!['{'] + #[trigger] separated(parts) + seq!['}']
                        }
                },
                _ => false,
            }
        }),
{
    reveal_strlit("@timestamp");
    reveal_strlit("@rest");
    assert(TIMESTAMP_COLUMN_NAME@.len() != REST_COLUMN_NAME@.len());
    lemma_field_place(schema.fields@, TIMESTAMP_COLUMN_NAME@, 0);
    lemma_field_place(schema.fields@, REST_COLUMN_NAME@, 0);
    lemma_time_through(view, members, view.fields.len() as int);
    lemma_unknown(schema, view, members);
    let left = members.filter(|member: (Seq<char>, MemberView)| !is_taken(schema, member));
    let parts = Seq::new(left.len(), |i: int| entry_text(left[i]));
    lemma_joined(left);
    assert(values[view.rest_index] is String ==> values[view.rest_index]->String_0 == seq!['{']
        + separated(parts) + seq!['}']);
}

/// A member as it is written in an object: its quoted key, a colon and its value as JSON.
pub open spec fn entry_text(member: (Seq<char>, MemberView)) -> Seq<char> {
    json_quoted(member.0) + seq![':'] + match member.1 {
        MemberView::Null => seq!['n', 'u', 'l', 'l'],
        MemberView::Bool(true) => seq!['t', 'r', 'u', 'e'],
        MemberView::Bool(false) => seq!['f', 'a', 'l', 's', 'e'],
        MemberView::Number(text) => text,
        MemberView::Text(text) => json_quoted(text),
        MemberView::Container(text) => text,
    }
}

/// Texts with commas between them.
pub open spec fn separated(parts: Seq<Seq<char>>) -> Seq<char>
    decreases parts.len(),
{
    if parts.len() == 0 {
        Seq::empty()
    } else if parts.len() == 1 {
        parts[0]
    } else {
        separated(parts.drop_last()) + seq![','] + parts.last()
    }
}

proof fn lemma_joined(members: Seq<(Seq<char>, MemberView)>)
    ensures
        crate::ingest::normalizer::members_joined(members) == separated(
            Seq::new(members.len(), |i: int| entry_text(members[i])),
        ),
    decreases members.len(),
{
    let parts = Seq::new(members.len(), |i: int| entry_text(members[i]));
    reveal_strlit("null");
    reveal_strlit("true");
    reveal_strlit("false");
    assert("null"@ =~= seq!['n', 'u', 'l', 'l']);
    assert("true"@ =~= seq!['t', 'r', 'u', 'e']);
    assert("false"@ =~= seq!['f', 'a', 'l', 's', 'e']);
    if members.len() > 1 {
        lemma_joined(members.drop_last());
        assert(parts.drop_last() =~= Seq::new(
            members.drop_last().len(),
            |i: int| entry_text(members.drop_last()[i]),
        ));
    }
}

/// Whether a cell of a column holds a value: the same flag, number, text or instant.
pub open spec fn holds_value(cell: ValueView, value: EventValueView) -> bool {
    match value {
        EventValueView::Null => cell is Null,
        EventValueView::Bool(flag) => cell == ValueView::Bool(flag),
        EventValueView::Int64(number) => cell == ValueView::Int64(number) || (
        cell matches ValueView::Int32(narrow) && narrow == number),
        EventValueView::UInt64(number) => cell == ValueView::UInt64(number) || (
        cell matches ValueView::UInt32(narrow) && narrow == number),
        EventValueView::Float64(text) => cell == ValueView::Float64(text) || cell
            == ValueView::Float32(text),
        EventValueView::String(text) => cell == ValueView::Utf8(text),
        EventValueView::Timestamp(milliseconds) => cell == ValueView::Datetime(milliseconds),
    }
}

/// Whether a column of a type can hold a cell.
pub open spec fn is_of_column(cell: ValueView, ty: ColumnType) -> bool {
    cell is Null || match ty {
        ColumnType::Utf8 => cell is Utf8,
        ColumnType::Int64 => cell is Int64,
        ColumnType::Int32 => cell is Int32,
        ColumnType::Uint64 => cell is UInt64,
        ColumnType::Uint32 => cell is UInt32,
        ColumnType::Float64 => cell is Float64,
        ColumnType::Float32 => cell is Float32,
        ColumnType::Bool => cell is Bool,
        ColumnType::Timestamp => cell is Datetime,
    }
}

/// A cell of a column is of the column's type and holds the value that it was made of. A value that no
/// such cell holds is refused.
pub proof fn cells_hold_their_value(
    value: EventValueView,
    field: TableField,
    place: nat,
    cell: ValueView,
)
    ensures
        cell_of(value, field, place) == Ok::<ValueView, StageErrorView>(cell) <==> holds_value(
            cell,
            value,
        ) && is_of_column(cell, field.ty),
{
}

proof fn lemma_column(rows: Seq<Seq<EventValueView>>, field: TableField, place: nat)
    ensures
        column_of(rows, field, place) matches Ok(cells) ==> {
            &&& cells.len() == rows.len()
            &&& forall|i: int|
                0 <= i < rows.len() ==> row_cell(rows[i], field, place) == Ok::<
                    ValueView,
                    StageErrorView,
                >(#[trigger] cells[i])
        },
    decreases rows.len(),
{
    if rows.len() > 0 {
        lemma_column(rows.drop_last(), field, place);
        if let Ok(cells) = column_of(rows, field, place) {
            let fewer = column_of(rows.drop_last(), field, place)->Ok_0;
            assert forall|i: int| 0 <= i < rows.len() implies row_cell(rows[i], field, place)
                == Ok::<ValueView, StageErrorView>(#[trigger] cells[i]) by {
                if i < rows.len() - 1 {
                    assert(cells[i] == fewer[i]);
                    assert(rows.drop_last()[i] == rows[i]);
                }
            }
        }
    }
}

proof fn lemma_columns(rows: Seq<Seq<EventValueView>>, fields: Seq<TableField>, count: int)
    requires
        0 <= count <= fields.len(),
    ensures
        columns_of(rows, fields, count) matches Ok(columns) ==> {
            &&& columns.len() == count
            &&& forall|i: int|
                0 <= i < count ==> column_of(rows, fields[i], i as nat) == Ok::<
                    Seq<ValueView>,
                    StageErrorView,
                >(#[trigger] columns[i])
        },
    decreases count,
{
    if count > 0 {
        lemma_columns(rows, fields, count - 1);
    }
}

proof fn lemma_null_fault(
    columns: Seq<Seq<ValueView>>,
    fields: Seq<TableField>,
    count: int,
    place: int,
)
    requires
        0 <= place < count,
        null_fault(columns, fields, count) is None,
    ensures
        fields[place].nullable || !has_null(columns[place]),
    decreases count,
{
    if place < count - 1 {
        lemma_null_fault(columns, fields, count - 1, place);
    }
}

/// A batch has a column for each field and in it a cell for each row. The cell holds the value that
/// the row has for the field, or null if the row ends before it, and a field that is not nullable has
/// no null. The column of the rest holds texts alone.
pub proof fn batches_hold_the_rows(
    rows: Seq<Seq<EventValueView>>,
    fields: Seq<TableField>,
    columns: Seq<Seq<ValueView>>,
    row: int,
    place: int,
)
    requires
        batch_of(rows, fields) == Ok::<Seq<Seq<ValueView>>, StageErrorView>(columns),
        0 <= row < rows.len(),
        0 <= place < fields.len(),
    ensures
        columns.len() == fields.len(),
        columns[place].len() == rows.len(),
        columns[place][row] is Null ==> fields[place].nullable,
        ({
            let cell = columns[place][row];
            let value = if place < rows[row].len() {
                rows[row][place]
            } else {
                EventValueView::Null
            };
            if fields[place].name@ == REST_COLUMN_NAME@ {
                match value {
                    EventValueView::String(text) => cell == ValueView::Utf8(text),
                    _ => cell is Null,
                }
            } else {
                holds_value(cell, value) && is_of_column(cell, fields[place].ty)
            }
        }),
{
    lemma_columns(rows, fields, fields.len() as int);
    lemma_column(rows, fields[place], place as nat);
    assert(column_of(rows, fields[place], place as nat) == Ok::<Seq<ValueView>, StageErrorView>(
        columns[place],
    ));
    let cell = columns[place][row];
    lemma_null_fault(columns, fields, fields.len() as int, place);
    if cell is Null {
        assert(has_null(columns[place]));
    }
    if fields[place].name@ != REST_COLUMN_NAME@ {
        cells_hold_their_value(
            crate::ingest::batcher::value_at(rows[row], place),
            fields[place],
            place as nat,
            cell,
        );
    }
}

/// Whether a text can name a directory of its own beside others: it is not empty, and nothing in it
/// parts or leads out of a path.
pub open spec fn is_plain_name(name: Seq<char>) -> bool {
    &&& name.len() > 0
    &&& name != seq!['.']
    &&& forall|i: int|
        0 <= i < name.len() ==> #[trigger] name[i] != '/' && name[i] != '\\' && name[i] != '\0'
    &&& forall|i: int, j: int|
        0 <= i < name.len() && j == i + 1 && j < name.len() ==> !(#[trigger] name[i] == '.'
            && #[trigger] name[j] == '.')
}

/// A table name is accepted exactly if it is a plain name.
pub proof fn plain_names_are_accepted(name: Seq<char>)
    ensures
        table_name_fault(name) is None <==> is_plain_name(name),
{
    if table_name_fault(name) is None {
        assert forall|i: int, j: int|
            0 <= i < name.len() && j == i + 1 && j < name.len() implies !(#[trigger] name[i] == '.'
            && #[trigger] name[j] == '.') by {}
    }
    if is_plain_name(name) {
        if contains_dot_dot(name) {
            let i = choose|i: int|
                0 <= i < name.len() - 1 && #[trigger] name[i] == '.' && name[i + 1] == '.';
            assert(name[i] == '.' && name[i + 1] == '.');
        }
    }
}

proof fn lemma_time_names(columns: Seq<ColumnDescriptor>)
    ensures
        time_names(columns).len() == columns.filter(|column: ColumnDescriptor| column.time).len(),
    decreases columns.len(),
{
    reveal(Seq::filter);
    if columns.len() > 0 {
        lemma_time_names(columns.drop_last());
    }
}

proof fn lemma_reserved(columns: Seq<ColumnDescriptor>)
    ensures
        reserved_messages(columns).len() == 0 <==> forall|i: int|
            0 <= i < columns.len() ==> !is_reserved(#[trigger] columns[i]),
    decreases columns.len(),
{
    if columns.len() > 0 {
        lemma_reserved(columns.drop_last());
        if forall|i: int| 0 <= i < columns.len() ==> !is_reserved(#[trigger] columns[i]) {
            assert forall|i: int| 0 <= i < columns.drop_last().len() implies !is_reserved(
                #[trigger] columns.drop_last()[i],
            ) by {
                assert(columns[i] == columns.drop_last()[i]);
            }
            assert(!is_reserved(columns[columns.len() - 1]));
        }
        if reserved_messages(columns).len() == 0 {
            assert forall|i: int| 0 <= i < columns.len() implies !is_reserved(
                #[trigger] columns[i],
            ) by {
                if i < columns.len() - 1 {
                    assert(columns[i] == columns.drop_last()[i]);
                }
            }
        }
    }
}

/// Whether the name of a column begins with an at sign.
pub open spec fn is_reserved(column: ColumnDescriptor) -> bool {
    column.name@.len() > 0 && column.name@[0] == '@'
}

/// Whether no two columns have the same name.
pub open spec fn names_differ(columns: Seq<ColumnDescriptor>) -> bool {
    forall|i: int, j: int|
        0 <= i < j < columns.len() ==> (#[trigger] columns[i]).name@ != (
        #[trigger] columns[j]).name@
}

proof fn lemma_duplicates(columns: Seq<ColumnDescriptor>)
    ensures
        duplicate_messages(columns).len() == 0 <==> names_differ(columns),
    decreases columns.len(),
{
    if columns.len() > 0 {
        let fewer = columns.drop_last();
        lemma_duplicates(fewer);
        if names_differ(columns) {
            assert forall|i: int, j: int| 0 <= i < j < fewer.len() implies (
            #[trigger] fewer[i]).name@ != (#[trigger] fewer[j]).name@ by {
                assert(columns[i] == fewer[i] && columns[j] == fewer[j]);
            }
            if has_column(fewer, columns.last().name@) {
                let i = choose|i: int|
                    0 <= i < fewer.len() && (#[trigger] fewer[i]).name@ == columns.last().name@;
                assert(columns[i].name@ == columns[columns.len() - 1].name@);
            }
        }
        if duplicate_messages(columns).len() == 0 {
            assert forall|i: int, j: int| 0 <= i < j < columns.len() implies (
            #[trigger] columns[i]).name@ != (#[trigger] columns[j]).name@ by {
                assert(columns[i] == fewer[i]);
                if j < fewer.len() {
                    assert(columns[j] == fewer[j]);
                } else {
                    assert(!has_column(fewer, columns.last().name@));
                    assert(fewer[i].name@ != columns.last().name@);
                }
            }
        }
    }
}

/// Nothing is wrong with a schema exactly if its table has a plain name, exactly one column holds the
/// event time, no name begins with an at sign, and no two columns have the same name.
pub proof fn sound_schemas_are_accepted(config: SchemaConfig)
    ensures
        schema_messages(config).len() == 0 <==> {
            &&& is_plain_name(config.table@)
            &&& config.columns@.filter(|column: ColumnDescriptor| column.time).len() == 1
            &&& forall|i: int|
                0 <= i < config.columns@.len() ==> !is_reserved(#[trigger] config.columns@[i])
            &&& names_differ(config.columns@)
        },
{
    plain_names_are_accepted(config.table@);
    lemma_time_names(config.columns@);
    lemma_reserved(config.columns@);
    lemma_duplicates(config.columns@);
}

proof fn lemma_text_start(text: Seq<char>, from: int)
    requires
        0 <= from <= text.len(),
    ensures
        from <= text_start(text, from) <= text.len(),
        forall|i: int| from <= i < text_start(text, from) ==> is_whitespace(#[trigger] text[i]),
        text_start(text, from) < text.len() ==> !is_whitespace(text[text_start(text, from)]),
    decreases text.len() - from,
{
    if from < text.len() && is_whitespace(text[from]) {
        lemma_text_start(text, from + 1);
    }
}

proof fn lemma_text_end(text: Seq<char>, from: int, to: int)
    requires
        0 <= from <= to <= text.len(),
    ensures
        from <= text_end(text, from, to) <= to,
        forall|i: int| text_end(text, from, to) <= i < to ==> is_whitespace(#[trigger] text[i]),
        from < text_end(text, from, to) ==> !is_whitespace(text[text_end(text, from, to) - 1]),
    decreases to - from,
{
    if from < to && is_whitespace(text[to - 1]) {
        lemma_text_end(text, from, to - 1);
    }
}

/// Trimming removes whitespace from the ends of a text, all of it, and nothing else.
pub proof fn trimming_removes_whitespace_alone(text: Seq<char>)
    ensures
        ({
            let kept = trimmed(text);
            &&& kept.len() > 0 ==> !is_whitespace(kept[0]) && !is_whitespace(kept.last())
            &&& exists|before: Seq<char>, behind: Seq<char>|
                {
                    &&& text == #[trigger] (before + kept + behind)
                    &&& is_all_whitespace(before)
                    &&& is_all_whitespace(behind)
                }
        }),
{
    lemma_text_start(text, 0);
    let start = text_start(text, 0);
    lemma_text_end(text, start, text.len() as int);
    let end = text_end(text, start, text.len() as int);
    let before = text.subrange(0, start);
    let behind = text.subrange(end, text.len() as int);
    assert(text =~= before + trimmed(text) + behind);
    assert(is_all_whitespace(before));
    assert(is_all_whitespace(behind));
}

/// Whether a text is made of whitespace alone.
pub open spec fn is_all_whitespace(text: Seq<char>) -> bool {
    forall|i: int| 0 <= i < text.len() ==> is_whitespace(#[trigger] text[i])
}

proof fn lemma_skip_slashes(text: Seq<char>, from: int)
    requires
        0 <= from <= text.len(),
    ensures
        from <= skip_slashes(text, from) <= text.len(),
        forall|i: int| from <= i < skip_slashes(text, from) ==> #[trigger] text[i] == '/',
        skip_slashes(text, from) < text.len() ==> text[skip_slashes(text, from)] != '/',
    decreases text.len() - from,
{
    if from < text.len() && text[from] == '/' {
        lemma_skip_slashes(text, from + 1);
    }
}

proof fn lemma_drop_slashes(text: Seq<char>, from: int, to: int)
    requires
        0 <= from <= to <= text.len(),
    ensures
        from <= drop_slashes(text, from, to) <= to,
        forall|i: int| drop_slashes(text, from, to) <= i < to ==> #[trigger] text[i] == '/',
        from < drop_slashes(text, from, to) ==> text[drop_slashes(text, from, to) - 1] != '/',
    decreases to - from,
{
    if from < to && text[to - 1] == '/' {
        lemma_drop_slashes(text, from, to - 1);
    }
}

/// Whether a text is made of slashes alone.
pub open spec fn is_all_slashes(text: Seq<char>) -> bool {
    forall|i: int| 0 <= i < text.len() ==> #[trigger] text[i] == '/'
}

/// The prefix of a path is the path without the slashes at its ends, and nothing else is removed.
pub proof fn prefixes_keep_all_but_the_outer_slashes(path: Seq<char>)
    ensures
        ({
            let kept = prefix_of(path);
            &&& kept.len() > 0 ==> kept[0] != '/' && kept.last() != '/'
            &&& exists|before: Seq<char>, behind: Seq<char>|
                {
                    &&& path == #[trigger] (before + kept + behind)
                    &&& is_all_slashes(before)
                    &&& is_all_slashes(behind)
                }
        }),
{
    lemma_skip_slashes(path, 0);
    let start = skip_slashes(path, 0);
    lemma_drop_slashes(path, start, path.len() as int);
    let end = drop_slashes(path, start, path.len() as int);
    let before = path.subrange(0, start);
    let behind = path.subrange(end, path.len() as int);
    assert(path =~= before + prefix_of(path) + behind);
    assert(is_all_slashes(before));
    assert(is_all_slashes(behind));
}

/// Whether a value suits a field: it is null and the field may be, or it is of the type of the field
/// and not beyond its range. What is no text in the column of the rest counts as null.
pub open spec fn suits(value: EventValueView, field: TableField) -> bool {
    if field.name@ == REST_COLUMN_NAME@ {
        value is String || field.nullable
    } else {
        match value {
            EventValueView::Null => field.nullable,
            EventValueView::String(_) => field.ty is Utf8,
            EventValueView::Bool(_) => field.ty is Bool,
            EventValueView::Int64(number) => field.ty is Int64 || (field.ty is Int32 && i32::MIN
                <= number <= i32::MAX),
            EventValueView::UInt64(number) => field.ty is Uint64 || (field.ty is Uint32 && number
                <= u32::MAX),
            EventValueView::Float64(_) => field.ty is Float64 || field.ty is Float32,
            EventValueView::Timestamp(_) => field.ty is Timestamp,
        }
    }
}

proof fn lemma_column_made(rows: Seq<Seq<EventValueView>>, field: TableField, place: nat)
    ensures
        column_of(rows, field, place) is Ok <==> forall|i: int|
            0 <= i < rows.len() ==> row_cell(#[trigger] rows[i], field, place) is Ok,
    decreases rows.len(),
{
    if rows.len() > 0 {
        let fewer = rows.drop_last();
        lemma_column_made(fewer, field, place);
        assert forall|i: int| 0 <= i < fewer.len() implies #[trigger] fewer[i] == rows[i] by {}
        if column_of(rows, field, place) is Ok {
            assert forall|i: int| 0 <= i < rows.len() implies row_cell(
                #[trigger] rows[i],
                field,
                place,
            ) is Ok by {
                if i < fewer.len() {
                    assert(fewer[i] == rows[i]);
                }
            }
        }
    }
}

proof fn lemma_columns_made(rows: Seq<Seq<EventValueView>>, fields: Seq<TableField>, count: int)
    requires
        0 <= count <= fields.len(),
    ensures
        columns_of(rows, fields, count) is Ok <==> forall|place: int|
            0 <= place < count ==> column_of(rows, #[trigger] fields[place], place as nat) is Ok,
    decreases count,
{
    if count > 0 {
        lemma_columns_made(rows, fields, count - 1);
    }
}

proof fn lemma_nulls_allowed(columns: Seq<Seq<ValueView>>, fields: Seq<TableField>, count: int)
    ensures
        null_fault(columns, fields, count) is None <==> forall|place: int|
            0 <= place < count ==> (#[trigger] fields[place]).nullable || !has_null(
                columns[place],
            ),
    decreases count,
{
    if count > 0 {
        lemma_nulls_allowed(columns, fields, count - 1);
    }
}

proof fn lemma_rest_is_text(fields: Seq<TableField>, count: int)
    ensures
        rest_fault(fields, count) is None <==> forall|place: int|
            0 <= place < count ==> (#[trigger] fields[place]).name@ != REST_COLUMN_NAME@
                || fields[place].ty is Utf8,
    decreases count,
{
    if count > 0 {
        lemma_rest_is_text(fields, count - 1);
    }
}

/// Rows make a batch exactly if there is a field, the rest is text, and each value suits its field.
pub proof fn suitable_rows_make_a_batch(
    rows: Seq<Seq<EventValueView>>,
    fields: Seq<TableField>,
)
    ensures
        batch_of(rows, fields) is Ok <==> {
            &&& fields.len() > 0
            &&& forall|place: int|
                0 <= place < fields.len() ==> (#[trigger] fields[place]).name@ != REST_COLUMN_NAME@
                    || fields[place].ty is Utf8
            &&& forall|row: int, place: int|
                #![trigger rows[row], fields[place]]
                0 <= row < rows.len() && 0 <= place < fields.len() ==> suits(
                    value_in(rows[row], place),
                    fields[place],
                )
        },
{
    let count = fields.len() as int;
    lemma_columns_made(rows, fields, count);
    lemma_columns(rows, fields, count);
    lemma_rest_is_text(fields, count);
    assert forall|place: int| 0 <= place < count implies (column_of(
        rows,
        #[trigger] fields[place],
        place as nat,
    ) is Ok <==> forall|i: int|
        0 <= i < rows.len() ==> row_cell(#[trigger] rows[i], fields[place], place as nat)
            is Ok) by {
        lemma_column_made(rows, fields[place], place as nat);
    }
    assert forall|row: int, place: int|
        #![trigger rows[row], fields[place]]
        0 <= row < rows.len() && 0 <= place < count implies (suits(
        value_in(rows[row], place),
        fields[place],
    ) ==> row_cell(rows[row], fields[place], place as nat) is Ok) && (row_cell(
        rows[row],
        fields[place],
        place as nat,
    ) matches Ok(cell) ==> (suits(value_in(rows[row], place), fields[place]) <==> !(cell is Null)
        || fields[place].nullable)) by {}
    if let Ok(columns) = columns_of(rows, fields, count) {
        lemma_nulls_allowed(columns, fields, count);
        assert forall|place: int| 0 <= place < count implies ((#[trigger] fields[place]).nullable
            || !has_null(columns[place]) <==> forall|row: int|
            0 <= row < rows.len() ==> suits(
                value_in(#[trigger] rows[row], place),
                fields[place],
            )) by {
            lemma_column(rows, fields[place], place as nat);
            let cells = columns[place];
            assert(column_of(rows, fields[place], place as nat) == Ok::<
                Seq<ValueView>,
                StageErrorView,
            >(cells));
            assert forall|row: int| 0 <= row < rows.len() implies (suits(
                value_in(#[trigger] rows[row], place),
                fields[place],
            ) <==> !(cells[row] is Null) || fields[place].nullable) by {
                assert(row_cell(rows[row], fields[place], place as nat) == Ok::<
                    ValueView,
                    StageErrorView,
                >(cells[row]));
            }
            if has_null(cells) {
                let row = choose|row: int| 0 <= row < cells.len() && #[trigger] cells[row] is Null;
                assert(rows[row] == rows[row]);
            }
        }
    }
}

/// The value that a row has at a place, null if the row ends before it.
pub open spec fn value_in(row: Seq<EventValueView>, place: int) -> EventValueView {
    if place < row.len() {
        row[place]
    } else {
        EventValueView::Null
    }
}

proof fn lemma_row_made(view: NormalizerView, members: Seq<(Seq<char>, MemberView)>, count: int)
    requires
        0 <= count <= view.fields.len(),
    ensures
        view.row_through(members, count) is Ok <==> forall|place: int|
            0 <= place < count && (#[trigger] view.fields[place]).name@ != REST_COLUMN_NAME@
                ==> view.field_value(members, place) is Ok,
    decreases count,
{
    if count > 0 {
        lemma_row_made(view, members, count - 1);
        assert(view.fields[count - 1] == view.fields[count - 1]);
    }
}

/// A line becomes a row exactly if each field but that of the rest takes what its member is: that of
/// the event time the member named as the time source, and every other the one with its name.
pub proof fn lines_with_fitting_members_become_rows(
    view: NormalizerView,
    members: Seq<(Seq<char>, MemberView)>,
)
    ensures
        view.row(members) is Ok <==> forall|place: int|
            0 <= place < view.fields.len() && (#[trigger] view.fields[place]).name@
                != REST_COLUMN_NAME@ ==> takes_its_member(view, members, place),
{
    lemma_row_made(view, members, view.fields.len() as int);
    assert forall|place: int|
        0 <= place < view.fields.len() && (#[trigger] view.fields[place]).name@
            != REST_COLUMN_NAME@ implies (view.field_value(members, place) is Ok
        <==> takes_its_member(view, members, place)) by {}
}

/// Whether a field takes what its member is.
pub open spec fn takes_its_member(
    view: NormalizerView,
    members: Seq<(Seq<char>, MemberView)>,
    place: int,
) -> bool {
    let field = view.fields[place];
    if field.name@ == TIMESTAMP_COLUMN_NAME@ {
        timestamp_coerced(member_at(members, view.time_source), field.nullable, field.name@) is Ok
    } else {
        coerced(member_at(members, field.name@), field.ty, field.nullable, field.name@) is Ok
    }
}

} // verus!
