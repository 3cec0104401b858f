//! Normalization: from a line of JSON to the values of a table's fields.

use vstd::prelude::*;
use vstd::string::*;
use vstd::utf8::encode_utf8;

use crate::calendar::{parse_timestamp_string, timestamp_of};
use crate::decimal::{
    decimal_below, float64_is_finite, integer_of, parse_i64, parse_u64, FLOAT64_LIMIT,
};
use crate::ingest::event::{
    value_views, Event, EventContext, EventRow, EventValue, EventValueView,
};
use crate::ingest::schema::{
    schema_messages, time_messages, time_names, ColumnDescriptor, ColumnType, SchemaConfig,
    TableField, TableSchema, REST_COLUMN_NAME, TIMESTAMP_COLUMN_NAME,
};
use crate::ingest::stage_error::{StageError, StageErrorView};
use crate::json::{json_quoted, quote};
use crate::text::optional_view;

verus! {

/// A value of a member of an object. An array or an object is kept as its text.
#[derive(Debug, PartialEq, Eq)]
pub enum MemberValue {
    Null,
    Bool(bool),
    Number(String),
    Text(String),
    Container(String),
}

/// What the value of a member is.
pub enum MemberView {
    Null,
    Bool(bool),
    Number(Seq<char>),
    Text(Seq<char>),
    Container(Seq<char>),
}

impl View for MemberValue {
    type V = MemberView;

    open spec fn view(&self) -> MemberView {
        match self {
            MemberValue::Null => MemberView::Null,
            MemberValue::Bool(flag) => MemberView::Bool(*flag),
            MemberValue::Number(text) => MemberView::Number(text@),
            MemberValue::Text(text) => MemberView::Text(text@),
            MemberValue::Container(text) => MemberView::Container(text@),
        }
    }
}

/// What members are.
pub open spec fn member_views(members: Seq<(String, MemberValue)>) -> Seq<
    (Seq<char>, MemberView),
> {
    Seq::new(members.len(), |i: int| (members[i].0@, members[i].1@))
}

/// What a line holds: the members of an object, something else, or no JSON, with the reason.
pub open spec fn document_view(
    document: Result<Option<Vec<(String, MemberValue)>>, String>,
) -> Result<Option<Seq<(Seq<char>, MemberView)>>, Seq<char>> {
    match document {
        Ok(Some(members)) => Ok(Some(member_views(members@))),
        Ok(None) => Ok(None),
        Err(reason) => Err(reason@),
    }
}

/// What a text holds as JSON: the members of an object in the order of their keys, something else,
/// or nothing, with the reason.
pub uninterp spec fn json_document(raw: Seq<char>) -> Result<
    Option<Seq<(Seq<char>, MemberView)>>,
    Seq<char>,
>;

/// Calls `serde_json::from_str`. Claimed of it: what the text holds depends on the text alone.
#[verifier::external_body]
fn parse_document(raw: &str) -> (document: Result<Option<Vec<(String, MemberValue)>>, String>)
    ensures
        document_view(document) == json_document(raw@),
{
    let value = serde_json::from_str::<serde_json::Value>(raw).map_err(|e| e.to_string())?;
    let serde_json::Value::Object(members) = value else { return Ok(None) };
    Ok(Some(members.into_iter().map(|(key, value)| (key, match value {
        serde_json::Value::Null => MemberValue::Null,
        serde_json::Value::Bool(flag) => MemberValue::Bool(flag),
        serde_json::Value::Number(number) => MemberValue::Number(number.to_string()),
        serde_json::Value::String(text) => MemberValue::Text(text),
        other => MemberValue::Container(other.to_string()),
    })).collect()))
}

/// The text in which a JSON value is shown in a message.
pub uninterp spec fn json_debug(text: Seq<char>) -> Option<Seq<char>>;

/// Calls `serde_json::from_str` and formats the value with its `Debug`. Claimed of it: the text
/// depends on the value's text alone.
#[verifier::external_body]
fn debug_json(text: &str) -> (shown: Option<String>)
    ensures
        optional_view(shown) == json_debug(text@),
{
    serde_json::from_str::<serde_json::Value>(text).ok().map(|value| format!("{value:?}"))
}

/// The text of a value as JSON.
pub open spec fn member_text(value: MemberView) -> Seq<char> {
    match value {
        MemberView::Null => "null"@,
        MemberView::Bool(flag) => if flag {
            "true"@
        } else {
            "false"@
        },
        MemberView::Number(text) => text,
        MemberView::Text(text) => json_quoted(text),
        MemberView::Container(text) => text,
    }
}

fn text_of_member(value: &MemberValue) -> (r: String)
    ensures
        r@ == member_text(value@),
{
    match value {
        MemberValue::Null => "null".to_owned(),
        MemberValue::Bool(flag) => if *flag {
            "true".to_owned()
        } else {
            "false".to_owned()
        },
        MemberValue::Number(text) => text.clone(),
        MemberValue::Text(text) => match quote(text.as_str()) {
            Some(quoted) => quoted,
            None => String::new(),
        },
        MemberValue::Container(text) => text.clone(),
    }
}

/// The value of the first member with this key.
pub open spec fn member_at(members: Seq<(Seq<char>, MemberView)>, key: Seq<char>) -> Option<
    MemberView,
>
    decreases members.len(),
{
    if members.len() == 0 {
        None
    } else if members[0].0 == key {
        Some(members[0].1)
    } else {
        member_at(members.subrange(1, members.len() as int), key)
    }
}

fn find<'a>(members: &'a Vec<(String, MemberValue)>, key: &String) -> (r: Option<&'a MemberValue>)
    ensures
        match r {
            Some(value) => member_at(member_views(members@), key@) == Some(value@),
            None => member_at(member_views(members@), key@) is None,
        },
{
    let ghost views = member_views(members@);
    let mut index: usize = 0;
    assert(views.subrange(0, views.len() as int) =~= views);
    while index < members.len()
        invariant
            index <= members@.len(),
            views == member_views(members@),
            member_at(views, key@) == member_at(
                views.subrange(index as int, views.len() as int),
                key@,
            ),
        decreases members@.len() - index,
    {
        let ghost rest = views.subrange(index as int, views.len() as int);
        assert(rest[0] == views[index as int]);
        if members[index].0 == *key {
            return Some(&members[index].1);
        }
        assert(rest.subrange(1, rest.len() as int) =~= views.subrange(
            index + 1,
            views.len() as int,
        ));
        index = index + 1;
    }
    None
}

pub open spec fn missing_message(name: Seq<char>) -> Seq<char> {
    "missing non-nullable field '"@ + name + "'"@
}

/// The name of a column type in messages.
pub open spec fn column_type_name(ty: ColumnType) -> Seq<char> {
    match ty {
        ColumnType::Utf8 => "Utf8"@,
        ColumnType::Int64 => "Int64"@,
        ColumnType::Int32 => "Int32"@,
        ColumnType::Uint64 => "UInt64"@,
        ColumnType::Uint32 => "UInt32"@,
        ColumnType::Float64 => "Float64"@,
        ColumnType::Float32 => "Float32"@,
        ColumnType::Bool => "Boolean"@,
        ColumnType::Timestamp => "Timestamp"@,
    }
}

pub open spec fn mismatch_message(value: MemberView, ty: ColumnType, name: Seq<char>) -> Seq<char> {
    "cannot coerce JSON "@ + match json_debug(member_text(value)) {
        Some(shown) => shown,
        None => member_text(value),
    } + " to "@ + column_type_name(ty) + " for field '"@ + name + "'"@
}

pub open spec fn failed(message: Seq<char>) -> Result<EventValueView, StageErrorView> {
    Err(StageErrorView::Normalization(message))
}

/// What a value becomes in a timestamp column.
pub open spec fn timestamp_coerced(
    value: Option<MemberView>,
    nullable: bool,
    name: Seq<char>,
) -> Result<EventValueView, StageErrorView> {
    match value {
        None => if nullable {
            Ok(EventValueView::Null)
        } else {
            failed(missing_message(name))
        },
        Some(MemberView::Null) => if nullable {
            Ok(EventValueView::Null)
        } else {
            failed(missing_message(name))
        },
        Some(MemberView::Number(text)) => match integer_of(encode_utf8(text)) {
            Some(integer) if i64::MIN <= integer <= i64::MAX => Ok(
                EventValueView::Timestamp(integer as i64),
            ),
            _ => failed(
                "non-integer number cannot be used as timestamp for field '"@ + name + "'"@,
            ),
        },
        Some(MemberView::Text(text)) => match timestamp_of(text) {
            Some(milliseconds) => Ok(EventValueView::Timestamp(milliseconds)),
            None => if nullable {
                Ok(EventValueView::Null)
            } else {
                failed(
                    "cannot parse timestamp for field '"@ + name + "': cannot parse '"@ + text
                        + "' as timestamp"@,
                )
            },
        },
        Some(_) => if nullable {
            Ok(EventValueView::Null)
        } else {
            failed("value for field '"@ + name + "' is not a number or string"@)
        },
    }
}

/// What a value becomes in a column.
pub open spec fn coerced(
    value: Option<MemberView>,
    ty: ColumnType,
    nullable: bool,
    name: Seq<char>,
) -> Result<EventValueView, StageErrorView> {
    let present = match value {
        Some(MemberView::Null) => None,
        other => other,
    };
    match present {
        None => if nullable {
            Ok(EventValueView::Null)
        } else {
            failed(missing_message(name))
        },
        Some(found) => match ty {
            ColumnType::Utf8 => match found {
                MemberView::Text(text) => Ok(EventValueView::String(text)),
                other => Ok(EventValueView::String(member_text(other))),
            },
            ColumnType::Int64 | ColumnType::Int32 => match found {
                MemberView::Number(text) => match integer_of(encode_utf8(text)) {
                    Some(integer) if i64::MIN <= integer <= i64::MAX => Ok(
                        EventValueView::Int64(integer as i64),
                    ),
                    _ => failed(mismatch_message(found, ty, name)),
                },
                _ => failed(mismatch_message(found, ty, name)),
            },
            ColumnType::Uint64 | ColumnType::Uint32 => match found {
                MemberView::Number(text) => match integer_of(encode_utf8(text)) {
                    Some(integer) if 0 <= integer <= u64::MAX && encode_utf8(text)[0] != 45 => Ok(
                        EventValueView::UInt64(integer as u64),
                    ),
                    _ => failed(mismatch_message(found, ty, name)),
                },
                _ => failed(mismatch_message(found, ty, name)),
            },
            ColumnType::Float64 | ColumnType::Float32 => match found {
                MemberView::Number(text) => if decimal_below(
                    encode_utf8(text),
                    FLOAT64_LIMIT@,
                ) {
                    Ok(EventValueView::Float64(text))
                } else {
                    failed(mismatch_message(found, ty, name))
                },
                _ => failed(mismatch_message(found, ty, name)),
            },
            ColumnType::Bool => match found {
                MemberView::Bool(flag) => Ok(EventValueView::Bool(flag)),
                _ => failed(mismatch_message(found, ty, name)),
            },
            ColumnType::Timestamp => timestamp_coerced(Some(found), nullable, name),
        },
    }
}

/// Whether a result is what a specification says.
pub open spec fn same_value(
    r: Result<EventValue, StageError>,
    expected: Result<EventValueView, StageErrorView>,
) -> bool {
    match r {
        Ok(value) => expected == Ok::<EventValueView, StageErrorView>(value@),
        Err(e) => expected == Err::<EventValueView, StageErrorView>(e@),
    }
}

fn missing(nullable: bool, name: &String) -> (r: Result<EventValue, StageError>)
    ensures
        same_value(
            r,
            if nullable {
                Ok(EventValueView::Null)
            } else {
                failed(missing_message(name@))
            },
        ),
{
    if nullable {
        Ok(EventValue::Null)
    } else {
        Err(
            StageError::Normalization(
                "missing non-nullable field '".to_owned().concat(name.as_str()).concat("'"),
            ),
        )
    }
}

fn name_of_type(ty: ColumnType) -> (r: &'static str)
    ensures
        r@ == column_type_name(ty),
{
    match ty {
        ColumnType::Utf8 => "Utf8",
        ColumnType::Int64 => "Int64",
        ColumnType::Int32 => "Int32",
        ColumnType::Uint64 => "UInt64",
        ColumnType::Uint32 => "UInt32",
        ColumnType::Float64 => "Float64",
        ColumnType::Float32 => "Float32",
        ColumnType::Bool => "Boolean",
        ColumnType::Timestamp => "Timestamp",
    }
}

fn type_mismatch(value: &MemberValue, ty: ColumnType, name: &String) -> (r: Result<
    EventValue,
    StageError,
>)
    ensures
        same_value(r, failed(mismatch_message(value@, ty, name@))),
{
    let text: String = text_of_member(value);
    let shown: String = match debug_json(text.as_str()) {
        Some(shown) => shown,
        None => text,
    };
    Err(
        StageError::Normalization(
            "cannot coerce JSON ".to_owned().concat(shown.as_str()).concat(" to ").concat(
                name_of_type(ty),
            ).concat(" for field '").concat(name.as_str()).concat("'"),
        ),
    )
}

/// Makes a value of a timestamp column.
pub fn coerce_timestamp(value: Option<&MemberValue>, nullable: bool, name: &String) -> (r: Result<
    EventValue,
    StageError,
>)
    ensures
        same_value(
            r,
            timestamp_coerced(
                match value {
                    Some(found) => Some(found@),
                    None => None,
                },
                nullable,
                name@,
            ),
        ),
{
    match value {
        None => missing(nullable, name),
        Some(MemberValue::Null) => missing(nullable, name),
        Some(MemberValue::Number(text)) => match parse_i64(text.as_str().as_bytes()) {
            Some(milliseconds) => Ok(EventValue::Timestamp(milliseconds)),
            None => Err(
                StageError::Normalization(
                    "non-integer number cannot be used as timestamp for field '".to_owned().concat(
                        name.as_str(),
                    ).concat("'"),
                ),
            ),
        },
        Some(MemberValue::Text(text)) => match parse_timestamp_string(text.as_str()) {
            Some(milliseconds) => Ok(EventValue::Timestamp(milliseconds)),
            None => if nullable {
                Ok(EventValue::Null)
            } else {
                Err(
                    StageError::Normalization(
                        "cannot parse timestamp for field '".to_owned().concat(
                            name.as_str(),
                        ).concat("': cannot parse '").concat(text.as_str()).concat(
                            "' as timestamp",
                        ),
                    ),
                )
            },
        },
        Some(_) => if nullable {
            Ok(EventValue::Null)
        } else {
            Err(
                StageError::Normalization(
                    "value for field '".to_owned().concat(name.as_str()).concat(
                        "' is not a number or string",
                    ),
                ),
            )
        },
    }
}

/// Makes a value of a column.
pub fn coerce_value(
    value: Option<&MemberValue>,
    ty: ColumnType,
    nullable: bool,
    name: &String,
) -> (r: Result<EventValue, StageError>)
    ensures
        same_value(
            r,
            coerced(
                match value {
                    Some(found) => Some(found@),
                    None => None,
                },
                ty,
                nullable,
                name@,
            ),
        ),
{
    let found: &MemberValue = match value {
        None => {
            return missing(nullable, name);
        },
        Some(MemberValue::Null) => {
            return missing(nullable, name);
        },
        Some(found) => found,
    };
    match ty {
        ColumnType::Utf8 => match found {
            MemberValue::Text(text) => Ok(EventValue::String(text.clone())),
            other => Ok(EventValue::String(text_of_member(other))),
        },
        ColumnType::Int64 | ColumnType::Int32 => match found {
            MemberValue::Number(text) => match parse_i64(text.as_str().as_bytes()) {
                Some(integer) => Ok(EventValue::Int64(integer)),
                None => type_mismatch(found, ty, name),
            },
            _ => type_mismatch(found, ty, name),
        },
        ColumnType::Uint64 | ColumnType::Uint32 => match found {
            MemberValue::Number(text) => {
                let bytes: &[u8] = text.as_str().as_bytes();
                let negative: bool = bytes.len() > 0 && bytes[0] == 45;
                match parse_u64(bytes) {
                    Some(integer) => if negative {
                        type_mismatch(found, ty, name)
                    } else {
                        Ok(EventValue::UInt64(integer))
                    },
                    None => type_mismatch(found, ty, name),
                }
            },
            _ => type_mismatch(found, ty, name),
        },
        ColumnType::Float64 | ColumnType::Float32 => match found {
            MemberValue::Number(text) => if float64_is_finite(text.as_str().as_bytes()) {
                Ok(EventValue::Float64(text.clone()))
            } else {
                type_mismatch(found, ty, name)
            },
            _ => type_mismatch(found, ty, name),
        },
        ColumnType::Bool => match found {
            MemberValue::Bool(flag) => Ok(EventValue::Bool(*flag)),
            _ => type_mismatch(found, ty, name),
        },
        ColumnType::Timestamp => coerce_timestamp(Some(found), nullable, name),
    }
}

/// The place, from `from` on, of the first field with this name.
pub open spec fn field_place(fields: Seq<TableField>, name: Seq<char>, from: int) -> Option<int>
    decreases fields.len() - from,
{
    if !(0 <= from < fields.len()) {
        None
    } else if fields[from].name@ == name {
        Some(from)
    } else {
        field_place(fields, name, from + 1)
    }
}

fn index_of(schema: &TableSchema, name: &String) -> (r: Option<usize>)
    ensures
        match r {
            Some(place) => field_place(schema.fields@, name@, 0) == Some(place as int) && place
                < schema.fields@.len(),
            None => field_place(schema.fields@, name@, 0) is None,
        },
{
    let mut index: usize = 0;
    while index < schema.fields.len()
        invariant
            index <= schema.fields@.len(),
            field_place(schema.fields@, name@, 0) == field_place(
                schema.fields@,
                name@,
                index as int,
            ),
        decreases schema.fields@.len() - index,
    {
        if schema.fields[index].name == *name {
            return Some(index);
        }
        index = index + 1;
    }
    None
}

/// Makes rows of the lines of a table.
#[derive(Debug)]
pub struct Normalizer {
    pub(crate) schema: TableSchema,
    pub(crate) timestamp_index: usize,
    pub(crate) rest_index: usize,
    pub(crate) time_source: String,
    pub(crate) timestamp_name: String,
    pub(crate) rest_name: String,
}

/// What a normalizer goes by.
pub struct NormalizerView {
    pub fields: Seq<TableField>,
    pub timestamp_index: int,
    pub rest_index: int,
    pub time_source: Seq<char>,
}

impl View for Normalizer {
    type V = NormalizerView;

    open(crate) spec fn view(&self) -> NormalizerView {
        NormalizerView {
            fields: self.schema.fields@,
            timestamp_index: self.timestamp_index as int,
            rest_index: self.rest_index as int,
            time_source: self.time_source@,
        }
    }
}

/// What a normalizer for a schema goes by, or why there is none.
pub open spec fn normalizer_of(schema: TableSchema) -> Result<NormalizerView, StageErrorView> {
    match (
        field_place(schema.fields@, TIMESTAMP_COLUMN_NAME@, 0),
        field_place(schema.fields@, REST_COLUMN_NAME@, 0),
    ) {
        (None, _) => Err(StageErrorView::Normalization("@timestamp"@ + " column missing"@)),
        (_, None) => Err(StageErrorView::Normalization("@rest"@ + " column missing"@)),
        (Some(timestamp_index), Some(rest_index)) => Ok(
            NormalizerView {
                fields: schema.fields@,
                timestamp_index,
                rest_index,
                time_source: match schema.time_source {
                    Some(name) => name@,
                    None => Seq::empty(),
                },
            },
        ),
    }
}

impl NormalizerView {
    /// Whether a field or the event time takes the member with this key.
    pub open spec fn knows(self, key: Seq<char>) -> bool {
        ||| exists|i: int|
            0 <= i < self.fields.len() && (#[trigger] self.fields[i]).name@ != REST_COLUMN_NAME@
                && self.fields[i].name@ == key
        ||| self.time_source.len() > 0 && self.time_source == key
    }

    /// The value of one field.
    pub open spec fn field_value(self, members: Seq<(Seq<char>, MemberView)>, place: int) -> Result<
        EventValueView,
        StageErrorView,
    > {
        let field = self.fields[place];
        if field.name@ == TIMESTAMP_COLUMN_NAME@ {
            timestamp_coerced(member_at(members, self.time_source), field.nullable, field.name@)
        } else {
            coerced(member_at(members, field.name@), field.ty, field.nullable, field.name@)
        }
    }

    /// The place in the row at which the value of a field goes.
    pub open spec fn target(self, place: int) -> int {
        if self.fields[place].name@ == TIMESTAMP_COLUMN_NAME@ {
            self.timestamp_index
        } else {
            place
        }
    }

    /// The row after the first `count` fields.
    pub open spec fn row_through(
        self,
        members: Seq<(Seq<char>, MemberView)>,
        count: int,
    ) -> Result<Seq<EventValueView>, StageErrorView>
        decreases count,
    {
        if count <= 0 {
            Ok(Seq::new(self.fields.len(), |i: int| EventValueView::Null))
        } else {
            match self.row_through(members, count - 1) {
                Err(e) => Err(e),
                Ok(values) => if self.fields[count - 1].name@ == REST_COLUMN_NAME@ {
                    Ok(values)
                } else {
                    match self.field_value(members, count - 1) {
                        Err(e) => Err(e),
                        Ok(value) => Ok(values.update(self.target(count - 1), value)),
                    }
                },
            }
        }
    }

    /// The members that no field takes.
    pub open spec fn unknown(self, members: Seq<(Seq<char>, MemberView)>) -> Seq<
        (Seq<char>, MemberView),
    >
        decreases members.len(),
    {
        if members.len() == 0 {
            Seq::empty()
        } else if self.knows(members.last().0) {
            self.unknown(members.drop_last())
        } else {
            self.unknown(members.drop_last()).push(members.last())
        }
    }

    /// The row that members become.
    pub open spec fn row(self, members: Seq<(Seq<char>, MemberView)>) -> Result<
        Seq<EventValueView>,
        StageErrorView,
    > {
        match self.row_through(members, self.fields.len() as int) {
            Err(e) => Err(e),
            Ok(values) => {
                let rest = self.unknown(members);
                Ok(
                    values.update(
                        self.rest_index,
                        if rest.len() == 0 {
                            EventValueView::Null
                        } else {
                            EventValueView::String(seq!['{'] + members_joined(rest) + seq!['}'])
                        },
                    ),
                )
            },
        }
    }

    /// The row that a line becomes, given what it holds.
    pub open spec fn row_of_document(
        self,
        document: Result<Option<Seq<(Seq<char>, MemberView)>>, Seq<char>>,
    ) -> Result<Seq<EventValueView>, StageErrorView> {
        match document {
            Err(reason) => Err(StageErrorView::Parse(reason)),
            Ok(None) => Err(StageErrorView::Parse("expected a JSON object"@)),
            Ok(Some(members)) => self.row(members),
        }
    }
}

proof fn lemma_row_refusals_are_complete(
    view: NormalizerView,
    members: Seq<(Seq<char>, MemberView)>,
    count: int,
)
    ensures
        view.row_through(members, count) matches Err(e) ==> e.complete(),
    decreases count,
{
    if count > 0 {
        lemma_row_refusals_are_complete(view, members, count - 1);
    }
}

/// Why a line becomes no row is said completely.
pub proof fn refusals_are_complete(
    view: NormalizerView,
    document: Result<Option<Seq<(Seq<char>, MemberView)>>, Seq<char>>,
)
    ensures
        view.row_of_document(document) matches Err(e) ==> e.complete(),
{
    if let Ok(Some(members)) = document {
        lemma_row_refusals_are_complete(view, members, view.fields.len() as int);
    }
}

/// The text of a member.
pub open spec fn member_entry(member: (Seq<char>, MemberView)) -> Seq<char> {
    json_quoted(member.0) + seq![':'] + member_text(member.1)
}

/// The texts of members with commas between them.
pub open spec fn members_joined(members: Seq<(Seq<char>, MemberView)>) -> Seq<char>
    decreases members.len(),
{
    if members.len() == 0 {
        Seq::empty()
    } else if members.len() == 1 {
        member_entry(members[0])
    } else {
        members_joined(members.drop_last()) + seq![','] + member_entry(members.last())
    }
}

/// Whether a row is what a specification says.
pub open spec fn same_row(
    r: Result<Vec<EventValue>, StageError>,
    expected: Result<Seq<EventValueView>, StageErrorView>,
) -> bool {
    match r {
        Ok(values) => expected == Ok::<Seq<EventValueView>, StageErrorView>(value_views(values@)),
        Err(e) => expected == Err::<Seq<EventValueView>, StageErrorView>(e@),
    }
}

impl Normalizer {
    #[verifier::type_invariant]
    pub(crate) open(crate) spec fn valid(self) -> bool {
        &&& self.timestamp_index < self.schema.fields@.len()
        &&& self.rest_index < self.schema.fields@.len()
        &&& self.timestamp_name@ == TIMESTAMP_COLUMN_NAME@
        &&& self.rest_name@ == REST_COLUMN_NAME@
    }

    pub fn new(schema: TableSchema) -> (r: Result<Self, StageError>)
        ensures
            match r {
                Ok(normalizer) => normalizer_of(schema) == Ok::<NormalizerView, StageErrorView>(
                    normalizer@,
                ),
                Err(e) => normalizer_of(schema) == Err::<NormalizerView, StageErrorView>(e@),
            },
    {
        let timestamp_name: String = TIMESTAMP_COLUMN_NAME.to_owned();
        let rest_name: String = REST_COLUMN_NAME.to_owned();
        let timestamp_index: usize = match index_of(&schema, &timestamp_name) {
            Some(index) => index,
            None => {
                return Err(
                    StageError::Normalization(
                        "@timestamp".to_owned().concat(" column missing"),
                    ),
                );
            },
        };
        let rest_index: usize = match index_of(&schema, &rest_name) {
            Some(index) => index,
            None => {
                return Err(
                    StageError::Normalization("@rest".to_owned().concat(" column missing")),
                );
            },
        };
        let time_source: String = match &schema.time_source {
            Some(name) => name.clone(),
            None => String::new(),
        };
        Ok(
            Normalizer {
                schema,
                timestamp_index,
                rest_index,
                time_source,
                timestamp_name,
                rest_name,
            },
        )
    }

    fn knows(&self, key: &String) -> (r: bool)
        ensures
            r == self@.knows(key@),
    {
        proof {
            use_type_invariant(self);
        }
        let mut index: usize = 0;
        while index < self.schema.fields.len()
            invariant
                index <= self.schema.fields@.len(),
                self.rest_name@ == REST_COLUMN_NAME@,
                forall|i: int|
                    0 <= i < index ==> !((#[trigger] self@.fields[i]).name@ != REST_COLUMN_NAME@
                        && self@.fields[i].name@ == key@),
            decreases self.schema.fields@.len() - index,
        {
            if self.schema.fields[index].name != self.rest_name && self.schema.fields[index].name
                == *key {
                assert(self@.fields[index as int].name@ == key@);
                return true;
            }
            index = index + 1;
        }
        !self.time_source.as_str().is_empty() && self.time_source == *key
    }

    /// Sets a value of a row.
    fn set(values: &mut Vec<EventValue>, place: usize, value: EventValue)
        requires
            place < old(values)@.len(),
        ensures
            value_views(final(values)@) == value_views(old(values)@).update(place as int, value@),
    {
        let ghost before = value_views(values@);
        values.set(place, value);
        assert(value_views(values@) =~= before.update(place as int, value@));
    }

    /// Makes a row of the members of an object.
    pub fn normalize_members(&self, members: &Vec<(String, MemberValue)>) -> (r: Result<
        Vec<EventValue>,
        StageError,
    >)
        ensures
            same_row(r, self@.row(member_views(members@))),
    {
        proof {
            use_type_invariant(self);
        }
        let ghost views = member_views(members@);
        let count: usize = self.schema.fields.len();
        let mut values: Vec<EventValue> = Vec::new();
        let mut index: usize = 0;
        while index < count
            invariant
                index <= count,
                values@.len() == index,
                forall|i: int| 0 <= i < index ==> (#[trigger] values@[i])@ == EventValueView::Null,
            decreases count - index,
        {
            values.push(EventValue::Null);
            index = index + 1;
        }
        assert(value_views(values@) =~= Seq::new(count as nat, |i: int| EventValueView::Null));
        index = 0;
        while index < count
            invariant
                index <= count,
                count == self.schema.fields@.len(),
                views == member_views(members@),
                values@.len() == count,
                self.timestamp_index < count,
                self.timestamp_name@ == TIMESTAMP_COLUMN_NAME@,
                self.rest_name@ == REST_COLUMN_NAME@,
                self@.row_through(views, index as int) == Ok::<
                    Seq<EventValueView>,
                    StageErrorView,
                >(value_views(values@)),
            decreases count - index,
        {
            let field: &TableField = &self.schema.fields[index];
            if field.name != self.rest_name {
                let timed: bool = field.name == self.timestamp_name;
                let made: Result<EventValue, StageError> = if timed {
                    coerce_timestamp(find(members, &self.time_source), field.nullable, &field.name)
                } else {
                    coerce_value(
                        find(members, &field.name),
                        field.ty,
                        field.nullable,
                        &field.name,
                    )
                };
                match made {
                    Ok(value) => {
                        let place: usize = if timed {
                            self.timestamp_index
                        } else {
                            index
                        };
                        Self::set(&mut values, place, value);
                        assert(values@.len() == value_views(values@).len());
                    },
                    Err(e) => {
                        proof {
                            lemma_row_fault_persists(
                                self@,
                                views,
                                index + 1,
                                count as int,
                            );
                        }
                        return Err(e);
                    },
                }
            }
            index = index + 1;
        }
        let rest: EventValue = self.rest_value(members);
        Self::set(&mut values, self.rest_index, rest);
        Ok(values)
    }

    /// The value of the column of the rest.
    fn rest_value(&self, members: &Vec<(String, MemberValue)>) -> (r: EventValue)
        ensures
            ({
                let rest = self@.unknown(member_views(members@));
                r@ == if rest.len() == 0 {
                    EventValueView::Null
                } else {
                    EventValueView::String(seq!['{'] + members_joined(rest) + seq!['}'])
                }
            }),
    {
        let ghost views = member_views(members@);
        let mut found: bool = false;
        let mut text: String = String::new();
        let mut index: usize = 0;
        proof {
            reveal_strlit("{");
            reveal_strlit("}");
            reveal_strlit(",");
            reveal_strlit(":");
            assert("{"@ =~= seq!['{']);
            assert("}"@ =~= seq!['}']);
            assert(","@ =~= seq![',']);
            assert(":"@ =~= seq![':']);
            assert(views.subrange(0, 0) =~= Seq::empty());
        }
        while index < members.len()
            invariant
                index <= members@.len(),
                views == member_views(members@),
                ","@ == seq![','],
                ":"@ == seq![':'],
                found == (self@.unknown(views.subrange(0, index as int)).len() > 0),
                text@ == members_joined(self@.unknown(views.subrange(0, index as int))),
            decreases members@.len() - index,
        {
            let ghost through = views.subrange(0, index + 1);
            let ghost earlier = self@.unknown(views.subrange(0, index as int));
            let ghost member = views[index as int];
            assert(through.drop_last() =~= views.subrange(0, index as int));
            assert(through.last() == member);
            if !self.knows(&members[index].0) {
                proof {
                    assert(earlier.push(member).drop_last() =~= earlier);
                }
                let ghost before = text@;
                if found {
                    text.append(",");
                }
                if let Some(quoted) = quote(members[index].0.as_str()) {
                    text.append(quoted.as_str());
                }
                text.append(":");
                let value: String = text_of_member(&members[index].1);
                text.append(value.as_str());
                proof {
                    let entry = member_entry(member);
                    if found {
                        assert(text@ =~= before + seq![','] + entry);
                    } else {
                        assert(text@ =~= entry);
                    }
                }
                found = true;
            }
            index = index + 1;
        }
        assert(views.subrange(0, views.len() as int) =~= views);
        if found {
            let whole: String = "{".to_owned().concat(text.as_str()).concat("}");
            EventValue::String(whole)
        } else {
            EventValue::Null
        }
    }

    /// Reads a line and makes the values of a row of it.
    pub fn row_of_line(&self, raw: &str) -> (r: Result<Vec<EventValue>, StageError>)
        ensures
            same_row(r, self@.row_of_document(json_document(raw@))),
    {
        match parse_document(raw) {
            Err(reason) => Err(StageError::Parse(reason)),
            Ok(None) => Err(StageError::Parse("expected a JSON object".to_owned())),
            Ok(Some(members)) => self.normalize_members(&members),
        }
    }

    /// Reads a line and makes a row of it.
    pub fn normalize<C: EventContext>(&self, raw: &str, context: C) -> (r: Result<
        Event<C>,
        StageError,
    >)
        ensures
            match r {
                Ok(event) => event.context == context && self@.row_of_document(
                    json_document(raw@),
                ) == Ok::<Seq<EventValueView>, StageErrorView>(value_views(event.row.values@)),
                Err(e) => self@.row_of_document(json_document(raw@)) == Err::<
                    Seq<EventValueView>,
                    StageErrorView,
                >(e@),
            },
    {
        match self.row_of_line(raw) {
            Ok(values) => Ok(Event { row: EventRow { values }, context }),
            Err(e) => Err(e),
        }
    }
}

proof fn lemma_row_fault_persists(
    normalizer: NormalizerView,
    members: Seq<(Seq<char>, MemberView)>,
    from: int,
    count: int,
)
    requires
        from <= count,
        normalizer.row_through(members, from) is Err,
    ensures
        normalizer.row_through(members, count) == normalizer.row_through(members, from),
    decreases count - from,
{
    if from < count {
        lemma_row_fault_persists(normalizer, members, from, count - 1);
    }
}

proof fn lemma_field_found(fields: Seq<TableField>, name: Seq<char>, from: int, at: int)
    requires
        0 <= from <= at < fields.len(),
        fields[at].name@ == name,
    ensures
        field_place(fields, name, from) is Some,
    decreases fields.len() - from,
{
    if fields[from].name@ != name {
        lemma_field_found(fields, name, from + 1, at);
    }
}

proof fn lemma_time_column(columns: Seq<ColumnDescriptor>)
    requires
        time_names(columns).len() > 0,
    ensures
        exists|i: int| 0 <= i < columns.len() && (#[trigger] columns[i]).time,
    decreases columns.len(),
{
    if columns.len() > 0 {
        if columns.last().time {
            assert(columns[columns.len() - 1].time);
        } else {
            lemma_time_column(columns.drop_last());
            let i = choose|i: int|
                0 <= i < columns.drop_last().len() && (#[trigger] columns.drop_last()[i]).time;
            assert(columns[i].time);
        }
    }
}

/// A schema that passes validation compiles to one that lines can be normalized for.
pub proof fn a_valid_schema_has_a_normalizer(config: SchemaConfig, schema: TableSchema)
    requires
        schema_messages(config).len() == 0,
        schema.compiles(config),
    ensures
        normalizer_of(schema) is Ok,
{
    assert(time_messages(config.columns@).len() == 0);
    lemma_time_column(config.columns@);
    let i = choose|i: int|
        0 <= i < config.columns@.len() && (#[trigger] config.columns@[i]).time;
    assert(schema.fields@[i].holds(config.columns@[i]));
    lemma_field_found(schema.fields@, TIMESTAMP_COLUMN_NAME@, 0, i);
    lemma_field_found(schema.fields@, REST_COLUMN_NAME@, 0, schema.fields@.len() - 1);
}

} // verus!
