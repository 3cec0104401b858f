//! What holds of the rows that the records of a batch become.

use vstd::prelude::*;
use vstd::utf8::{encode_utf8, is_char_boundary, valid_utf8};

use crate::calendar::{rfc3339_instant, utc_day, utc_representable};
use crate::catalog::{
    mapping_place, EventTimeFormat, Field, FieldMapping, FieldRole, IngestionProfile, LogicalType,
    Nullability,
};
use crate::decimal::{array_index_of, decimal_below, integer_of, FLOAT32_LIMIT, FLOAT64_LIMIT};
use crate::digest::blake3_digest;
use crate::ingestion::normalization::{
    batch_of, converted, field_plans_of, field_value_of, field_values_of, instant_of,
    is_ascii_whitespace, is_blank, is_mapped, line_feed, line_feeds, line_outcome, occurrences,
    pointed_value, progress_through, row_of, unmapped, Conversion, FieldPlanView, Occurrence,
    PlanView,
};
use crate::ingestion::record::{
    character_boundary, kept_bytes, payload_of, DeadLetterCode, OutcomeView, PayloadEncoding,
    PayloadExtent, RecordLocation, RowView, ValueView,
};
use crate::json::{member_value, object_of, Json};
use crate::text::text_views;

verus! {

/// Whether a value says what a JSON value says: the same flag, the same text, the number that the
/// numeral denotes, or the instant that the text or the number denotes.
pub open spec fn denotes(value: ValueView, json: Json, format: EventTimeFormat) -> bool {
    match value {
        ValueView::Null => json is Null,
        ValueView::Bool(flag) => json == Json::Bool(flag),
        ValueView::Int32(integer) => json matches Json::Number(text) && integer_of(
            encode_utf8(text),
        ) == Some(integer as int),
        ValueView::Int64(integer) => json matches Json::Number(text) && integer_of(
            encode_utf8(text),
        ) == Some(integer as int),
        ValueView::UInt32(integer) => json matches Json::Number(text) && integer_of(
            encode_utf8(text),
        ) == Some(integer as int),
        ValueView::UInt64(integer) => json matches Json::Number(text) && integer_of(
            encode_utf8(text),
        ) == Some(integer as int),
        ValueView::Float32(text) => json == Json::Number(text) && decimal_below(
            encode_utf8(text),
            FLOAT32_LIMIT@,
        ),
        ValueView::Float64(text) => json == Json::Number(text) && decimal_below(
            encode_utf8(text),
            FLOAT64_LIMIT@,
        ),
        ValueView::Utf8(text) => json == Json::Text(text),
        ValueView::Datetime(milliseconds) => denotes_instant(json, format, milliseconds),
    }
}

/// Whether a JSON value denotes an instant: as a text, a whole millisecond.
pub open spec fn denotes_instant(json: Json, format: EventTimeFormat, milliseconds: i64) -> bool {
    &&& utc_representable(milliseconds as int)
    &&& match format {
        EventTimeFormat::Rfc3339 => {
            &&& json matches Json::Text(text)
            &&& rfc3339_instant(text) matches Some((found, nanosecond))
            &&& found == milliseconds
            &&& nanosecond % 1_000_000 == 0
        },
        EventTimeFormat::UnixMilliseconds => {
            &&& json matches Json::Number(text)
            &&& integer_of(encode_utf8(text)) == Some(milliseconds as int)
        },
    }
}

/// Whether a value is of a logical type.
pub open spec fn has_type(value: ValueView, logical_type: LogicalType) -> bool {
    match logical_type {
        LogicalType::Bool => value is Bool,
        LogicalType::Int32 => value is Int32,
        LogicalType::Int64 => value is Int64,
        LogicalType::UInt32 => value is UInt32,
        LogicalType::UInt64 => value is UInt64,
        LogicalType::Float32 => value is Float32,
        LogicalType::Float64 => value is Float64,
        LogicalType::Utf8 => value is Utf8,
        LogicalType::Datetime => value is Datetime,
        LogicalType::Eid => false,
        LogicalType::Json => false,
    }
}

/// The logical type that a conversion makes values of.
pub open spec fn type_made(conversion: Conversion) -> LogicalType {
    match conversion {
        Conversion::Bool => LogicalType::Bool,
        Conversion::Int32 => LogicalType::Int32,
        Conversion::Int64 => LogicalType::Int64,
        Conversion::UInt32 => LogicalType::UInt32,
        Conversion::UInt64 => LogicalType::UInt64,
        Conversion::Float32 => LogicalType::Float32,
        Conversion::Float64 => LogicalType::Float64,
        Conversion::Utf8 => LogicalType::Utf8,
        Conversion::Datetime => LogicalType::Datetime,
    }
}

/// An instant is found in a JSON value exactly if the value denotes it.
pub proof fn instants_are_those_denoted(json: Json, format: EventTimeFormat, milliseconds: i64)
    ensures
        instant_of(json, format) == Some(milliseconds) <==> denotes_instant(
            json,
            format,
            milliseconds,
        ),
{
}

/// A conversion gives a value exactly if the value is of its type and says what the JSON value
/// says. A JSON value that no such value says is not converted.
pub proof fn conversions_are_exact(
    json: Json,
    conversion: Conversion,
    format: EventTimeFormat,
    value: ValueView,
)
    ensures
        converted(json, conversion, format) == Some(value) <==> has_type(
            value,
            type_made(conversion),
        ) && denotes(value, json, format),
{
    if let ValueView::Datetime(milliseconds) = value {
        instants_are_those_denoted(json, format, milliseconds);
    }
}

/// Whether the pointer of a field, if there is one, leads to a JSON value.
pub open spec fn leads_to(root: Json, plan: FieldPlanView, json: Json) -> bool {
    plan.pointer matches Some(tokens) && pointed_value(root, tokens) == Some(json)
}

proof fn lemma_field_values(root: Json, plans: Seq<FieldPlanView>, format: EventTimeFormat)
    ensures
        match field_values_of(root, plans, format) {
            Ok(values) => {
                &&& values.len() == plans.len()
                &&& forall|i: int|
                    0 <= i < plans.len() ==> (#[trigger] values[i]).0 == plans[i].field_id
                        && field_value_of(root, plans[i], format) == Ok::<
                        ValueView,
                        DeadLetterCode,
                    >(values[i].1)
            },
            Err(_) => exists|i: int|
                0 <= i < plans.len() && field_value_of(
                    root,
                    #[trigger] plans[i],
                    format,
                ) is Err,
        },
    decreases plans.len(),
{
    if plans.len() > 0 {
        lemma_field_values(root, plans.drop_last(), format);
        match field_values_of(root, plans.drop_last(), format) {
            Ok(values) => {
                match field_value_of(root, plans.last(), format) {
                    Ok(value) => {
                        let all = field_values_of(root, plans, format)->Ok_0;
                        assert forall|i: int| 0 <= i < plans.len() implies (
                        #[trigger] all[i]).0 == plans[i].field_id && field_value_of(
                            root,
                            plans[i],
                            format,
                        ) == Ok::<ValueView, DeadLetterCode>(all[i].1) by {
                            if i < plans.len() - 1 {
                                assert(plans.drop_last()[i] == plans[i]);
                                assert(all[i] == values[i]);
                            }
                        }
                    },
                    Err(_) => {
                        assert(field_value_of(root, plans[plans.len() - 1], format) is Err);
                    },
                }
            },
            Err(_) => {
                let i = choose|i: int|
                    0 <= i < plans.drop_last().len() && field_value_of(
                        root,
                        #[trigger] plans.drop_last()[i],
                        format,
                    ) is Err;
                assert(plans.drop_last()[i] == plans[i]);
            },
        }
    }
}

/// In every accepted row, each planned field has a value, in the order of the plan. It is null only
/// if the field is nullable and its pointer leads nowhere, or there is none, or it leads to a JSON
/// null. Otherwise the pointer leads to a JSON value, and the field's value is of the field's type
/// and says what that value says.
pub proof fn accepted_fields_say_what_the_record_says(
    plan: PlanView,
    record: Seq<u8>,
    location: RecordLocation,
    row: RowView,
    members: Seq<(Seq<char>, Json)>,
    i: int,
)
    requires
        row_of(plan, record, location) == Ok::<RowView, DeadLetterCode>(row),
        object_of(record) == Some(members),
        0 <= i < plan.fields.len(),
    ensures
        row.fields.len() == plan.fields.len(),
        row.fields[i].0 == plan.fields[i].field_id,
        ({
            let root = Json::Object(members);
            let field = plan.fields[i];
            let value = row.fields[i].1;
            &&& value is Null <==> (forall|json: Json| #[trigger]
                leads_to(root, field, json) ==> json is Null)
            &&& value is Null ==> field.nullability == Nullability::Nullable
            &&& forall|json: Json| #[trigger]
                leads_to(root, field, json) && json !is Null ==> has_type(
                    value,
                    type_made(field.conversion),
                ) && denotes(value, json, plan.profile.event_time.format)
        }),
{
    let root = Json::Object(members);
    let format = plan.profile.event_time.format;
    let field = plan.fields[i];
    lemma_field_values(root, plan.fields, format);
    let value = row.fields[i].1;
    assert(field_value_of(root, field, format) == Ok::<ValueView, DeadLetterCode>(value));
    match field.pointer {
        Some(tokens) => {
            match pointed_value(root, tokens) {
                Some(json) => {
                    assert(leads_to(root, field, json));
                    if json !is Null {
                        conversions_are_exact(json, field.conversion, format, value);
                    }
                },
                None => {},
            }
        },
        None => {},
    }
}

/// A record in which a pointer of a field leads to a value that is not null and not of the field's
/// type is never accepted, whether the field is nullable or not.
pub proof fn mistyped_records_are_never_accepted(
    plan: PlanView,
    record: Seq<u8>,
    location: RecordLocation,
    members: Seq<(Seq<char>, Json)>,
    i: int,
    json: Json,
)
    requires
        object_of(record) == Some(members),
        0 <= i < plan.fields.len(),
        leads_to(Json::Object(members), plan.fields[i], json),
        json !is Null,
        forall|value: ValueView| #[trigger]
            has_type(value, type_made(plan.fields[i].conversion)) ==> !denotes(
                value,
                json,
                plan.profile.event_time.format,
            ),
    ensures
        row_of(plan, record, location) is Err,
{
    if let Ok(row) = row_of(plan, record, location) {
        accepted_fields_say_what_the_record_says(plan, record, location, row, members, i);
        assert(has_type(row.fields[i].1, type_made(plan.fields[i].conversion)));
    }
}

/// A record that is an object, whose event time is an instant and each of whose fields has a value
/// of its type or may be null and has none, is accepted. Every other record is rejected.
pub proof fn well_typed_records_are_accepted(
    plan: PlanView,
    record: Seq<u8>,
    location: RecordLocation,
)
    ensures
        row_of(plan, record, location) is Ok <==> {
            &&& object_of(record) matches Some(members)
            &&& exists|json: Json, milliseconds: i64|
                pointed_value(
                    Json::Object(members),
                    text_views(plan.profile.event_time.json_pointer.tokens@),
                ) == Some(json) && #[trigger] denotes_instant(
                    json,
                    plan.profile.event_time.format,
                    milliseconds,
                )
            &&& forall|i: int|
                0 <= i < plan.fields.len() ==> has_value(
                    Json::Object(members),
                    #[trigger] plan.fields[i],
                    plan.profile.event_time.format,
                )
        },
{
    if let Some(members) = object_of(record) {
        let root = Json::Object(members);
        let format = plan.profile.event_time.format;
        let tokens = text_views(plan.profile.event_time.json_pointer.tokens@);
        lemma_field_values(root, plan.fields, format);
        match pointed_value(root, tokens) {
            Some(json) => {
                match instant_of(json, format) {
                    Some(milliseconds) => {
                        instants_are_those_denoted(json, format, milliseconds);
                    },
                    None => {
                        assert forall|milliseconds: i64|
                            !#[trigger] denotes_instant(json, format, milliseconds) by {
                            instants_are_those_denoted(json, format, milliseconds);
                        }
                    },
                }
            },
            None => {},
        }
        assert forall|i: int| 0 <= i < plan.fields.len() implies (has_value(
            root,
            #[trigger] plan.fields[i],
            format,
        ) <==> field_value_of(root, plan.fields[i], format) is Ok) by {
            lemma_has_value(root, plan.fields[i], format);
        }
        if let Ok(values) = field_values_of(root, plan.fields, format) {
            assert forall|i: int| 0 <= i < plan.fields.len() implies has_value(
                root,
                #[trigger] plan.fields[i],
                format,
            ) by {
                assert(values[i].0 == plan.fields[i].field_id);
            }
        }
    }
}

/// Whether a field has a value in a record: it is nullable and its pointer leads to nothing but
/// null, or its pointer leads to a value of its type.
pub open spec fn has_value(root: Json, plan: FieldPlanView, format: EventTimeFormat) -> bool {
    ||| plan.nullability == Nullability::Nullable && (forall|json: Json| #[trigger]
        leads_to(root, plan, json) ==> json is Null)
    ||| exists|json: Json, value: ValueView|
        {
            &&& #[trigger] leads_to(root, plan, json)
            &&& json !is Null
            &&& has_type(value, type_made(plan.conversion))
            &&& #[trigger] denotes(value, json, format)
        }
}

proof fn lemma_has_value(root: Json, plan: FieldPlanView, format: EventTimeFormat)
    ensures
        has_value(root, plan, format) <==> field_value_of(root, plan, format) is Ok,
{
    let pointed = match plan.pointer {
        Some(tokens) => pointed_value(root, tokens),
        None => None,
    };
    match pointed {
        None => {},
        Some(json) => {
            assert(leads_to(root, plan, json));
            if json !is Null {
                match converted(json, plan.conversion, format) {
                    Some(value) => {
                        conversions_are_exact(json, plan.conversion, format, value);
                    },
                    None => {
                        assert forall|value: ValueView|
                            has_type(value, type_made(plan.conversion)) implies !#[trigger]
                        denotes(value, json, format) by {
                            conversions_are_exact(json, plan.conversion, format, value);
                        }
                    },
                }
            }
        },
    }
}

/// A pointer without a token leads to the whole value. The first token of any other picks the first
/// member with that key of an object, or the item with that number of an array, and the rest of the
/// pointer leads on from there. From any other value it leads nowhere.
pub proof fn pointers_are_followed_token_by_token(root: Json, tokens: Seq<Seq<char>>)
    ensures
        tokens.len() == 0 ==> pointed_value(root, tokens) == Some(root),
        tokens.len() > 0 ==> ({
            let rest = tokens.subrange(1, tokens.len() as int);
            match root {
                Json::Object(members) => {
                    &&& forall|j: int|
                        0 <= j < members.len() && (#[trigger] members[j]).0 == tokens[0] && (
                        forall|k: int| 0 <= k < j ==> (#[trigger] members[k]).0 != tokens[0])
                            ==> pointed_value(root, tokens) == pointed_value(members[j].1, rest)
                    &&& (forall|j: int|
                        0 <= j < members.len() ==> (#[trigger] members[j]).0 != tokens[0])
                        ==> pointed_value(root, tokens) is None
                },
                Json::Array(items) => match array_index_of(encode_utf8(tokens[0])) {
                    Some(place) => if place < items.len() {
                        pointed_value(root, tokens) == pointed_value(items[place as int], rest)
                    } else {
                        pointed_value(root, tokens) is None
                    },
                    None => pointed_value(root, tokens) is None,
                },
                _ => pointed_value(root, tokens) is None,
            }
        }),
{
    if tokens.len() > 0 {
        if let Json::Object(members) = root {
            lemma_member_value(members, tokens[0]);
        }
    }
}

proof fn lemma_member_value(members: Seq<(Seq<char>, Json)>, key: Seq<char>)
    ensures
        forall|j: int|
            0 <= j < members.len() && (#[trigger] members[j]).0 == key && (forall|k: int|
                0 <= k < j ==> (#[trigger] members[k]).0 != key) ==> member_value(members, key)
                == Some(members[j].1),
        (forall|j: int| 0 <= j < members.len() ==> (#[trigger] members[j]).0 != key)
            ==> member_value(members, key) is None,
    decreases members.len(),
{
    if members.len() > 0 && members[0].0 != key {
        let rest = members.subrange(1, members.len() as int);
        lemma_member_value(rest, key);
        assert forall|j: int|
            0 <= j < members.len() && (#[trigger] members[j]).0 == key && (forall|k: int|
                0 <= k < j ==> (#[trigger] members[k]).0 != key) implies member_value(members, key)
            == Some(members[j].1) by {
            assert(rest[j - 1] == members[j]);
            assert forall|k: int| 0 <= k < j - 1 implies (#[trigger] rest[k]).0 != key by {
                assert(rest[k] == members[k + 1]);
            }
        }
        if forall|j: int| 0 <= j < members.len() ==> (#[trigger] members[j]).0 != key {
            assert forall|j: int| 0 <= j < rest.len() implies (#[trigger] rest[j]).0 != key by {
                assert(rest[j] == members[j + 1]);
            }
        }
    } else if members.len() > 0 {
        assert forall|j: int|
            0 <= j < members.len() && (#[trigger] members[j]).0 == key && (forall|k: int|
                0 <= k < j ==> (#[trigger] members[k]).0 != key) implies member_value(members, key)
            == Some(members[j].1) by {
            if j > 0 {
                assert(members[0].0 != key);
            }
        }
    }
}

/// Whether a mapping of a profile is the first that leads to a field.
pub open spec fn is_first_mapping(
    mappings: Seq<FieldMapping>,
    at: int,
    field: Field,
) -> bool {
    &&& 0 <= at < mappings.len()
    &&& mappings[at].target_field_id == field.id
    &&& forall|i: int| 0 <= i < at ==> (#[trigger] mappings[i]).target_field_id != field.id
}

/// Whether the plan of a field is what the schema and the profile say of the field.
pub open spec fn plans_field(
    plan: FieldPlanView,
    field: Field,
    mappings: Seq<FieldMapping>,
) -> bool {
    &&& plan.field_id == field.id
    &&& plan.nullability == field.nullability
    &&& type_made(plan.conversion) == field.logical_type
    &&& match plan.pointer {
        None => field.nullability == Nullability::Nullable && forall|i: int|
            0 <= i < mappings.len() ==> (#[trigger] mappings[i]).target_field_id != field.id,
        Some(tokens) => exists|at: int| #[trigger]
            is_first_mapping(mappings, at, field) && tokens == text_views(
                mappings[at].json_pointer.tokens@,
            ),
    }
}

proof fn lemma_mapping_place(mappings: Seq<FieldMapping>, field: Field, from: int)
    requires
        0 <= from,
        forall|i: int|
            0 <= i < from && i < mappings.len() ==> (#[trigger] mappings[i]).target_field_id
                != field.id,
    ensures
        match mapping_place(mappings, field.id, from) {
            Some(at) => is_first_mapping(mappings, at, field),
            None => forall|i: int|
                0 <= i < mappings.len() ==> (#[trigger] mappings[i]).target_field_id != field.id,
        },
    decreases mappings.len() - from,
{
    if from < mappings.len() && mappings[from].target_field_id != field.id {
        lemma_mapping_place(mappings, field, from + 1);
    }
}

/// Each data field of a schema is planned, in the order of the schema, as the schema and the first
/// mapping of the profile that leads to it say. There is no plan exactly if a data field has a type
/// that no value is converted to, or must not be null and is not mapped.
pub proof fn every_data_field_is_planned(fields: Seq<Field>, profile: IngestionProfile)
    ensures
        ({
            let data = fields.filter(|field: Field| field.role == FieldRole::Data);
            match field_plans_of(fields, profile) {
                Ok(plans) => {
                    &&& plans.len() == data.len()
                    &&& forall|i: int|
                        0 <= i < data.len() ==> plans_field(
                            #[trigger] plans[i],
                            data[i],
                            profile.mappings@,
                        )
                },
                Err(_) => exists|i: int|
                    {
                        &&& 0 <= i < fields.len()
                        &&& (#[trigger] fields[i]).role == FieldRole::Data
                        &&& {
                            ||| fields[i].logical_type is Eid || fields[i].logical_type is Json
                            ||| fields[i].nullability == Nullability::NonNull && forall|j: int|
                                0 <= j < profile.mappings@.len() ==> (
                                #[trigger] profile.mappings@[j]).target_field_id != fields[i].id
                        }
                    },
            }
        }),
    decreases fields.len(),
{
    reveal(Seq::filter);
    if fields.len() > 0 {
        let data = fields.filter(|field: Field| field.role == FieldRole::Data);
        let shorter = fields.drop_last();
        let earlier = shorter.filter(|field: Field| field.role == FieldRole::Data);
        let last = fields.last();
        every_data_field_is_planned(shorter, profile);
        match field_plans_of(shorter, profile) {
            Err(_) => {
                let i = choose|i: int|
                    {
                        &&& 0 <= i < shorter.len()
                        &&& (#[trigger] shorter[i]).role == FieldRole::Data
                        &&& {
                            ||| shorter[i].logical_type is Eid || shorter[i].logical_type is Json
                            ||| shorter[i].nullability == Nullability::NonNull && forall|j: int|
                                0 <= j < profile.mappings@.len() ==> (
                                #[trigger] profile.mappings@[j]).target_field_id != shorter[i].id
                        }
                    };
                assert(fields[i] == shorter[i]);
            },
            Ok(before) => {
                if last.role == FieldRole::Data {
                    lemma_mapping_place(profile.mappings@, last, 0);
                    match field_plans_of(fields, profile) {
                        Ok(plans) => {
                            assert(plans_field(
                                plans[plans.len() - 1],
                                last,
                                profile.mappings@,
                            ));
                            assert forall|i: int| 0 <= i < data.len() implies plans_field(
                                #[trigger] plans[i],
                                data[i],
                                profile.mappings@,
                            ) by {
                                if i < earlier.len() {
                                    assert(plans[i] == before[i]);
                                    assert(data[i] == earlier[i]);
                                }
                            }
                        },
                        Err(_) => {
                            assert(fields[fields.len() - 1] == last);
                        },
                    }
                }
            },
        }
    }
}

/// The remainder of a row is made of the members of the record, in their order, that no pointer of a
/// single token names: neither that of the event time nor that of a mapping. It is left out if there
/// are none. The row stands where the record stands, and its event time is the instant that the
/// pointer of the event time leads to.
pub proof fn the_remainder_is_what_is_not_mapped(
    plan: PlanView,
    record: Seq<u8>,
    location: RecordLocation,
    row: RowView,
    members: Seq<(Seq<char>, Json)>,
)
    requires
        row_of(plan, record, location) == Ok::<RowView, DeadLetterCode>(row),
        object_of(record) == Some(members),
    ensures
        row.location == location,
        row.ingestion_time == plan.metadata.ingestion_time,
        pointed_value(
            Json::Object(members),
            text_views(plan.profile.event_time.json_pointer.tokens@),
        ) matches Some(json) && denotes_instant(
            json,
            plan.profile.event_time.format,
            row.event_time,
        ),
        ({
            let left = members.filter(
                |member: (Seq<char>, Json)| !names_member(plan.profile, member.0),
            );
            match row.remainder {
                Some(rest) => rest == left && left.len() > 0,
                None => left.len() == 0,
            }
        }),
{
    lemma_unmapped(members, plan.profile);
    if let Some(json) = pointed_value(
        Json::Object(members),
        text_views(plan.profile.event_time.json_pointer.tokens@),
    ) {
        instants_are_those_denoted(json, plan.profile.event_time.format, row.event_time);
    }
}

/// Whether a pointer of a single token, that of the event time or of a mapping, names a member.
pub open spec fn names_member(profile: IngestionProfile, key: Seq<char>) -> bool {
    ||| text_views(profile.event_time.json_pointer.tokens@) == seq![key]
    ||| exists|i: int|
        0 <= i < profile.mappings@.len() && text_views(
            (#[trigger] profile.mappings@[i]).json_pointer.tokens@,
        ) == seq![key]
}

proof fn lemma_single_token(tokens: Seq<String>, key: Seq<char>)
    ensures
        tokens.len() == 1 && tokens[0]@ == key <==> text_views(tokens) == seq![key],
{
    if tokens.len() == 1 && tokens[0]@ == key {
        assert(text_views(tokens) =~= seq![key]);
    }
    if text_views(tokens) == seq![key] {
        assert(text_views(tokens).len() == 1);
        assert(text_views(tokens)[0] == key);
    }
}

proof fn lemma_names_member(profile: IngestionProfile, key: Seq<char>)
    ensures
        is_mapped(profile, key) <==> names_member(profile, key),
{
    lemma_single_token(profile.event_time.json_pointer.tokens@, key);
    assert forall|i: int| 0 <= i < profile.mappings@.len() implies (text_views(
        (#[trigger] profile.mappings@[i]).json_pointer.tokens@,
    ) == seq![key] <==> crate::ingestion::normalization::is_top_level(
        profile.mappings@[i].json_pointer,
        key,
    )) by {
        lemma_single_token(profile.mappings@[i].json_pointer.tokens@, key);
    }
    if is_mapped(profile, key) && !names_member(profile, key) {
        let i = choose|i: int|
            0 <= i < profile.mappings@.len() && crate::ingestion::normalization::is_top_level(
                #[trigger] profile.mappings@[i].json_pointer,
                key,
            );
        assert(text_views(profile.mappings@[i].json_pointer.tokens@) == seq![key]);
    }
    if names_member(profile, key) && !is_mapped(profile, key) {
        let i = choose|i: int|
            0 <= i < profile.mappings@.len() && text_views(
                (#[trigger] profile.mappings@[i]).json_pointer.tokens@,
            ) == seq![key];
        assert(crate::ingestion::normalization::is_top_level(
            profile.mappings@[i].json_pointer,
            key,
        ));
    }
}

proof fn lemma_unmapped(members: Seq<(Seq<char>, Json)>, profile: IngestionProfile)
    ensures
        unmapped(members, profile) == members.filter(
            |member: (Seq<char>, Json)| !names_member(profile, member.0),
        ),
    decreases members.len(),
{
    reveal(Seq::filter);
    if members.len() > 0 {
        lemma_unmapped(members.drop_last(), profile);
        lemma_names_member(profile, members.last().0);
    }
}

/// Whether a line stands at a place of a body: between two line feeds or the ends of the body, without
/// the carriage return before the line feed that ends it, numbered by the line feeds before it.
pub open spec fn is_line(body: Seq<u8>, line: Occurrence) -> bool {
    &&& 0 <= line.start <= line.end <= body.len()
    &&& line.start == 0 || body[line.start - 1] == 10
    &&& forall|i: int| line.start <= i < line.end ==> #[trigger] body[i] != 10
    &&& line.line == line_feeds(body, line.start) + 1
    &&& {
        ||| line.end == body.len() && line.start < line.end
        ||| line.end < body.len() && body[line.end] == 10 && !(line.start < line.end && body[
            line.end - 1
        ] == 13)
        ||| line.end + 1 < body.len() && body[line.end] == 13 && body[line.end + 1] == 10
    }
}

proof fn lemma_line_feed(body: Seq<u8>, from: int)
    requires
        0 <= from <= body.len(),
    ensures
        from <= line_feed(body, from) <= body.len(),
        forall|i: int| from <= i < line_feed(body, from) ==> #[trigger] body[i] != 10,
        line_feed(body, from) < body.len() ==> body[line_feed(body, from)] == 10,
    decreases body.len() - from,
{
    if from < body.len() && body[from] != 10 {
        lemma_line_feed(body, from + 1);
    }
}

proof fn lemma_no_line_feeds(body: Seq<u8>, from: int, to: int)
    requires
        0 <= from <= to <= body.len(),
        forall|i: int| from <= i < to ==> #[trigger] body[i] != 10,
    ensures
        line_feeds(body, to) == line_feeds(body, from),
    decreases to - from,
{
    if from < to {
        lemma_no_line_feeds(body, from, to - 1);
    }
}

/// Whether a byte is no line feed, and no carriage return before one.
pub open spec fn is_content(body: Seq<u8>, place: int) -> bool {
    &&& body[place] != 10
    &&& !(body[place] == 13 && place + 1 < body.len() && body[place + 1] == 10)
}

/// Whether a place lies in one of the lines.
pub open spec fn in_a_line(lines: Seq<Occurrence>, place: int) -> bool {
    exists|i: int| 0 <= i < lines.len() && (#[trigger] lines[i]).start <= place < lines[i].end
}

/// Whether one of the lines ends with the line feed at a place.
pub open spec fn ends_a_line(lines: Seq<Occurrence>, place: int) -> bool {
    exists|i: int|
        0 <= i < lines.len() && (#[trigger] lines[i]).start <= lines[i].end <= place <= lines[i].end
            + 1
}

proof fn lemma_lines(body: Seq<u8>, start: int)
    requires
        0 <= start <= body.len(),
        start == 0 || body[start - 1] == 10,
    ensures
        ({
            let lines = occurrences(body, start, line_feeds(body, start) + 1);
            &&& forall|i: int|
                0 <= i < lines.len() ==> is_line(body, #[trigger] lines[i]) && start
                    <= lines[i].start
            &&& forall|i: int, j: int|
                0 <= i < j < lines.len() ==> (#[trigger] lines[i]).end < (
                #[trigger] lines[j]).start
        }),
    decreases body.len() - start,
{
    let number = line_feeds(body, start) + 1;
    let lines = occurrences(body, start, number);
    let delimiter = line_feed(body, start);
    lemma_line_feed(body, start);
    if delimiter < body.len() {
        lemma_no_line_feeds(body, start, delimiter);
        lemma_lines(body, delimiter + 1);
        let rest = occurrences(body, delimiter + 1, number + 1);
        assert(line_feeds(body, delimiter + 1) == line_feeds(body, start) + 1);
        let first = lines[0];
        assert(lines =~= seq![first] + rest);
        assert(is_line(body, first));
        assert forall|i: int| 0 <= i < lines.len() implies is_line(body, #[trigger] lines[i])
            && start <= lines[i].start by {
            if i > 0 {
                assert(lines[i] == rest[i - 1]);
            }
        }
        assert forall|i: int, j: int| 0 <= i < j < lines.len() implies (#[trigger] lines[i]).end < (
        #[trigger] lines[j]).start by {
            assert(lines[j] == rest[j - 1]);
            if i > 0 {
                assert(lines[i] == rest[i - 1]);
            }
        }
    }
}

proof fn lemma_in_a_line(body: Seq<u8>, start: int, number: nat, place: int)
    requires
        0 <= start <= place < body.len(),
    ensures
        is_content(body, place) ==> in_a_line(occurrences(body, start, number), place),
        body[place] == 10 ==> ends_a_line(occurrences(body, start, number), place),
    decreases body.len() - start,
{
    let lines = occurrences(body, start, number);
    let delimiter = line_feed(body, start);
    lemma_line_feed(body, start);
    if delimiter < body.len() && place > delimiter {
        let rest = occurrences(body, delimiter + 1, number + 1);
        lemma_in_a_line(body, delimiter + 1, number + 1, place);
        if is_content(body, place) {
            let i = choose|i: int|
                0 <= i < rest.len() && (#[trigger] rest[i]).start <= place < rest[i].end;
            assert(lines[i + 1] == rest[i]);
        }
        if body[place] == 10 {
            let i = choose|i: int|
                0 <= i < rest.len() && (#[trigger] rest[i]).start <= rest[i].end <= place
                    <= rest[i].end + 1;
            assert(lines[i + 1] == rest[i]);
        }
    } else {
        assert(lines[0].start <= place);
        assert(is_content(body, place) ==> place < lines[0].end);
        assert(body[place] == 10 ==> lines[0].start <= lines[0].end <= place <= lines[0].end + 1);
    }
}

/// The lines of a body are the stretches between its line feeds, in their order, each numbered by the
/// line feeds before it and without the carriage return before its own. Every other byte lies in one
/// of them, and each line feed ends one of them.
pub proof fn lines_are_parted_by_line_feeds(body: Seq<u8>)
    ensures
        ({
            let lines = occurrences(body, 0, 1);
            &&& forall|i: int| 0 <= i < lines.len() ==> is_line(body, #[trigger] lines[i])
            &&& forall|i: int, j: int|
                0 <= i < j < lines.len() ==> (#[trigger] lines[i]).end < (
                #[trigger] lines[j]).start
            &&& forall|place: int|
                0 <= place < body.len() && #[trigger] is_content(body, place) ==> in_a_line(
                    lines,
                    place,
                )
            &&& forall|place: int|
                0 <= place < body.len() && #[trigger] body[place] == 10 ==> ends_a_line(
                    lines,
                    place,
                )
        }),
{
    let lines = occurrences(body, 0, 1);
    lemma_lines(body, 0);
    assert(line_feeds(body, 0) + 1 == 1nat);
    assert forall|place: int|
        0 <= place < body.len() && #[trigger] is_content(body, place) implies in_a_line(
        lines,
        place,
    ) by {
        lemma_in_a_line(body, 0, 1, place);
    }
    assert forall|place: int| 0 <= place < body.len() && #[trigger] body[place] == 10 implies
        ends_a_line(lines, place) by {
        lemma_in_a_line(body, 0, 1, place);
    }
}

/// Why a line that is not blank is rejected is decided in this order: it is longer than the profile
/// allows, it is no UTF-8, it is no JSON object, its event time is no instant, or one of its fields
/// has no value. A line for which none of these holds is accepted, unless its day is one too many.
pub proof fn rejections_have_their_cause(
    plan: PlanView,
    record: Seq<u8>,
    location: RecordLocation,
)
    ensures
        ({
            let outcome = line_outcome(plan, record, location);
            let fits = record.len() <= plan.profile.maximum_record_bytes;
            let readable = fits && valid_utf8(record);
            &&& outcome == Err::<RowView, DeadLetterCode>(DeadLetterCode::TooLarge) <==> !fits
            &&& outcome == Err::<RowView, DeadLetterCode>(DeadLetterCode::InvalidUtf8) <==> fits
                && !valid_utf8(record)
            &&& outcome == Err::<RowView, DeadLetterCode>(DeadLetterCode::ParseFailed) <==> readable
                && object_of(record) is None
            &&& outcome == Err::<RowView, DeadLetterCode>(DeadLetterCode::EventTimeInvalid) <==> {
                &&& readable
                &&& object_of(record) matches Some(members)
                &&& forall|json: Json, milliseconds: i64|
                    pointed_value(
                        Json::Object(members),
                        text_views(plan.profile.event_time.json_pointer.tokens@),
                    ) == Some(json) ==> !#[trigger] denotes_instant(
                        json,
                        plan.profile.event_time.format,
                        milliseconds,
                    )
            }
            &&& readable ==> outcome == row_of(plan, record, location)
        }),
{
    if let Some(members) = object_of(record) {
        let root = Json::Object(members);
        let format = plan.profile.event_time.format;
        let tokens = text_views(plan.profile.event_time.json_pointer.tokens@);
        lemma_field_codes(root, plan.fields, format);
        match pointed_value(root, tokens) {
            Some(json) => {
                match instant_of(json, format) {
                    Some(milliseconds) => {
                        instants_are_those_denoted(json, format, milliseconds);
                    },
                    None => {
                        assert forall|milliseconds: i64|
                            !#[trigger] denotes_instant(json, format, milliseconds) by {
                            instants_are_those_denoted(json, format, milliseconds);
                        }
                    },
                }
            },
            None => {},
        }
    }
}

proof fn lemma_field_codes(root: Json, plans: Seq<FieldPlanView>, format: EventTimeFormat)
    ensures
        field_values_of(root, plans, format) matches Err(code) ==> code
            == DeadLetterCode::FieldMissing || code == DeadLetterCode::FieldNull || code
            == DeadLetterCode::ConversionFailed,
    decreases plans.len(),
{
    if plans.len() > 0 {
        lemma_field_codes(root, plans.drop_last(), format);
    }
}

/// Whether a record is what a line of a body becomes: the row of that line, or a dead letter that
/// tells of the whole line and of the reason why there is no row.
pub open spec fn becomes(
    plan: PlanView,
    body: Seq<u8>,
    line: Occurrence,
    outcome: OutcomeView,
) -> bool {
    let record = body.subrange(line.start, line.end);
    let location = RecordLocation {
        line_number: line.line as u64,
        input_position: line.start as u64,
    };
    match outcome {
        OutcomeView::Accepted(row) => line_outcome(plan, record, location) == Ok::<
            RowView,
            DeadLetterCode,
        >(row),
        OutcomeView::DeadLetter(entry) => {
            &&& entry.batch_id == plan.metadata.batch_id
            &&& entry.location == location
            &&& entry.payload_byte_count == record.len() as u64
            &&& entry.payload_digest == blake3_digest(record)
            &&& entry.payload == payload_of(record)
            &&& match line_outcome(plan, record, location) {
                Err(code) => entry.code == code,
                Ok(_) => entry.code == DeadLetterCode::EventDayLimitExceeded,
            }
        },
    }
}

/// Whether all bytes of a line are spaces, tabs, line feeds, form feeds or carriage returns.
pub open spec fn is_blank_line(body: Seq<u8>, line: Occurrence) -> bool {
    forall|i: int|
        line.start <= i < line.end ==> {
            let byte = #[trigger] body[i];
            byte == 32 || byte == 9 || byte == 10 || byte == 12 || byte == 13
        }
}

proof fn lemma_blank(body: Seq<u8>, line: Occurrence)
    requires
        0 <= line.start <= line.end <= body.len(),
    ensures
        is_blank(body.subrange(line.start, line.end)) <==> is_blank_line(body, line),
{
    let record = body.subrange(line.start, line.end);
    if is_blank(record) {
        assert forall|i: int| line.start <= i < line.end implies {
            let byte = #[trigger] body[i];
            byte == 32 || byte == 9 || byte == 10 || byte == 12 || byte == 13
        } by {
            assert(record[i - line.start] == body[i]);
        }
    }
    if is_blank_line(body, line) {
        assert forall|i: int| 0 <= i < record.len() implies is_ascii_whitespace(
            #[trigger] record[i],
        ) by {
            assert(record[i] == body[line.start + i]);
        }
    }
}

proof fn lemma_records(plan: PlanView, body: Seq<u8>, lines: Seq<Occurrence>)
    requires
        forall|i: int|
            0 <= i < lines.len() ==> 0 <= (#[trigger] lines[i]).start <= lines[i].end
                <= body.len(),
    ensures
        ({
            let records = progress_through(plan, body, lines).records;
            let kept = lines.filter(|line: Occurrence| !is_blank_line(body, line));
            &&& records.len() == kept.len()
            &&& forall|i: int|
                0 <= i < kept.len() ==> becomes(plan, body, kept[i], #[trigger] records[i])
        }),
    decreases lines.len(),
{
    reveal(Seq::filter);
    if lines.len() > 0 {
        let shorter = lines.drop_last();
        assert forall|i: int| 0 <= i < shorter.len() implies 0 <= (#[trigger] shorter[i]).start
            <= shorter[i].end <= body.len() by {
            assert(shorter[i] == lines[i]);
        }
        lemma_records(plan, body, shorter);
        let line = lines.last();
        assert(line == lines[lines.len() - 1]);
        lemma_blank(body, line);
        let before = progress_through(plan, body, shorter).records;
        let records = progress_through(plan, body, lines).records;
        let earlier = shorter.filter(|line: Occurrence| !is_blank_line(body, line));
        let kept = lines.filter(|line: Occurrence| !is_blank_line(body, line));
        assert forall|i: int| 0 <= i < kept.len() implies becomes(
            plan,
            body,
            kept[i],
            #[trigger] records[i],
        ) by {
            if i < earlier.len() {
                assert(records[i] == before[i]);
                assert(kept[i] == earlier[i]);
            }
        }
    }
}

/// Each line of a body that is not blank becomes one record, in the order of the lines, and no other
/// line becomes one.
pub proof fn each_line_becomes_its_record(plan: PlanView, body: Seq<u8>)
    ensures
        ({
            let records = batch_of(plan, body).records;
            let kept = occurrences(body, 0, 1).filter(
                |line: Occurrence| !is_blank_line(body, line),
            );
            &&& records.len() == kept.len()
            &&& forall|i: int|
                0 <= i < kept.len() ==> becomes(plan, body, kept[i], #[trigger] records[i])
            &&& batch_of(plan, body).metadata == plan.metadata
        }),
{
    lines_are_parted_by_line_feeds(body);
    lemma_records(plan, body, occurrences(body, 0, 1));
}

/// Whether earlier records are accepted on as many days as a batch may have, none of them a given day.
pub open spec fn crowds_out(records: Seq<OutcomeView>, at: int, day: int) -> bool {
    exists|days: Seq<int>| #[trigger] are_earlier_days(records, at, days) && !days.contains(day)
}

/// Whether as many days as a batch may have, no two of them the same, are days of accepted records
/// before a place.
pub open spec fn are_earlier_days(records: Seq<OutcomeView>, at: int, days: Seq<int>) -> bool {
    &&& days.len() == 32
    &&& days.no_duplicates()
    &&& forall|i: int| 0 <= i < days.len() ==> is_earlier_day(records, at, #[trigger] days[i])
}

/// Whether a record before a place is accepted on a day.
pub open spec fn is_earlier_day(records: Seq<OutcomeView>, at: int, day: int) -> bool {
    exists|i: int|
        0 <= i < at && ((#[trigger] records[i]) matches OutcomeView::Accepted(row) && utc_day(
            row.event_time as int,
        ) == day)
}

proof fn lemma_days(plan: PlanView, body: Seq<u8>, lines: Seq<Occurrence>)
    ensures
        ({
            let progress = progress_through(plan, body, lines);
            let records = progress.records;
            &&& progress.days.len() <= 32
            &&& progress.days.no_duplicates()
            &&& forall|i: int|
                0 <= i < progress.days.len() ==> is_earlier_day(
                    records,
                    records.len() as int,
                    #[trigger] progress.days[i],
                )
            &&& forall|i: int|
                0 <= i < records.len() ==> #[trigger] is_rightly_refused(plan, body, records, i)
        }),
    decreases lines.len(),
{
    if lines.len() > 0 {
        lemma_days(plan, body, lines.drop_last());
        let before = progress_through(plan, body, lines.drop_last());
        let after = progress_through(plan, body, lines);
        let line = lines.last();
        assert forall|day: int| is_earlier_day(
            before.records,
            before.records.len() as int,
            day,
        ) implies #[trigger] is_earlier_day(
            after.records,
            before.records.len() as int,
            day,
        ) && is_earlier_day(after.records, after.records.len() as int, day) by {
            let i = choose|i: int|
                0 <= i < before.records.len() && ((
                #[trigger] before.records[i]) matches OutcomeView::Accepted(row) && utc_day(
                    row.event_time as int,
                ) == day);
            assert(after.records[i] == before.records[i]);
        }
        assert forall|i: int| 0 <= i < after.days.len() implies is_earlier_day(
            after.records,
            after.records.len() as int,
            #[trigger] after.days[i],
        ) by {
            if i < before.days.len() {
                assert(after.days[i] == before.days[i]);
                assert(is_earlier_day(
                    before.records,
                    before.records.len() as int,
                    before.days[i],
                ));
                assert(is_earlier_day(
                    after.records,
                    before.records.len() as int,
                    before.days[i],
                ));
            } else {
                assert(after.records[before.records.len() as int] is Accepted);
            }
        }
        assert forall|i: int| 0 <= i < after.records.len() implies #[trigger] is_rightly_refused(
            plan,
            body,
            after.records,
            i,
        ) by {
            if i < before.records.len() {
                assert(after.records[i] == before.records[i]);
                assert(is_rightly_refused(plan, body, before.records, i));
                assert forall|day: int| is_earlier_day(
                    before.records,
                    i,
                    day,
                ) implies #[trigger] is_earlier_day(after.records, i, day) by {
                    let j = choose|j: int|
                        0 <= j < i && ((
                        #[trigger] before.records[j]) matches OutcomeView::Accepted(row)
                            && utc_day(row.event_time as int) == day);
                    assert(after.records[j] == before.records[j]);
                }
                assert forall|day: int| crowds_out(
                    before.records,
                    i,
                    day,
                ) implies #[trigger] crowds_out(after.records, i, day) by {
                    let days = choose|days: Seq<int>| #[trigger]
                        are_earlier_days(before.records, i, days) && !days.contains(day);
                    assert(are_earlier_days(after.records, i, days));
                }
                if let OutcomeView::DeadLetter(entry) = after.records[i] {
                    if entry.code == DeadLetterCode::EventDayLimitExceeded {
                        let day = choose|day: int| #[trigger] crowds_out(before.records, i, day);
                        assert(crowds_out(after.records, i, day));
                    }
                }
            } else if let OutcomeView::DeadLetter(entry) = after.records[i] {
                if entry.code == DeadLetterCode::EventDayLimitExceeded {
                    let record = body.subrange(line.start, line.end);
                    let location = RecordLocation {
                        line_number: line.line as u64,
                        input_position: line.start as u64,
                    };
                    lemma_outcome_codes(plan, record, location);
                    let row = line_outcome(plan, record, location)->Ok_0;
                    let day = utc_day(row.event_time as int);
                    assert(are_earlier_days(after.records, i, before.days)) by {
                        assert forall|k: int| 0 <= k < before.days.len() implies is_earlier_day(
                            after.records,
                            i,
                            #[trigger] before.days[k],
                        ) by {
                            assert(is_earlier_day(
                                before.records,
                                before.records.len() as int,
                                before.days[k],
                            ));
                        }
                    }
                    assert(crowds_out(after.records, i, day));
                }
            }
        }
    }
}

proof fn lemma_outcome_codes(plan: PlanView, record: Seq<u8>, location: RecordLocation)
    ensures
        line_outcome(plan, record, location) != Err::<RowView, DeadLetterCode>(
            DeadLetterCode::EventDayLimitExceeded,
        ),
{
    if let Some(members) = object_of(record) {
        lemma_field_codes(
            Json::Object(members),
            plan.fields,
            plan.profile.event_time.format,
        );
    }
}

/// Whether a record that is refused for its day comes behind accepted records on as many other days as
/// a batch may have.
pub open spec fn is_rightly_refused(
    plan: PlanView,
    body: Seq<u8>,
    records: Seq<OutcomeView>,
    at: int,
) -> bool {
    match records[at] {
        OutcomeView::DeadLetter(entry) => entry.code == DeadLetterCode::EventDayLimitExceeded
            ==> exists|day: int| #[trigger] crowds_out(records, at, day),
        OutcomeView::Accepted(_) => true,
    }
}

/// A record is refused for its day only behind accepted records on as many days as a batch may have.
pub proof fn days_are_refused_only_when_there_are_too_many(plan: PlanView, body: Seq<u8>, at: int)
    requires
        0 <= at < batch_of(plan, body).records.len(),
    ensures
        is_rightly_refused(plan, body, batch_of(plan, body).records, at),
{
    lemma_days(plan, body, occurrences(body, 0, 1));
}

/// What a dead letter keeps of a record that is UTF-8 is its text: all of it if it is not longer than
/// the limit, and otherwise as many whole characters from its beginning as the limit holds.
pub proof fn dead_letters_keep_the_beginning(record: Seq<u8>)
    requires
        valid_utf8(record),
    ensures
        ({
            let payload = payload_of(record);
            let kept = encode_utf8(payload.content);
            &&& payload.encoding == PayloadEncoding::Utf8
            &&& kept.len() <= record.len()
            &&& kept.len() <= 4096
            &&& kept == record.subrange(0, kept.len() as int)
            &&& record.len() <= 4096 ==> kept == record && payload.extent == PayloadExtent::Complete
            &&& record.len() > 4096 ==> payload.extent == PayloadExtent::Prefix
            &&& forall|longer: int|
                kept.len() < longer <= record.len() && longer <= 4096 ==> !#[trigger]
                is_char_boundary(record, longer)
        }),
{
    let limit = kept_bytes(record);
    let at = character_boundary(record, limit);
    lemma_character_boundary(record, limit);
    vstd::utf8::is_char_boundary_start_end_of_seq(record);
    vstd::utf8::valid_utf8_split(record, at);
    vstd::utf8::decode_utf8_encode_utf8(record.subrange(0, at));
    if record.len() <= 4096 {
        assert(at == record.len());
        assert(record.subrange(0, at) =~= record);
    }
}

proof fn lemma_character_boundary(record: Seq<u8>, at: int)
    requires
        valid_utf8(record),
        0 <= at <= record.len(),
    ensures
        0 <= character_boundary(record, at) <= at,
        is_char_boundary(record, character_boundary(record, at)),
        forall|longer: int|
            character_boundary(record, at) < longer <= at ==> !#[trigger] is_char_boundary(
                record,
                longer,
            ),
    decreases at,
{
    if at > 0 && !is_char_boundary(record, at) {
        lemma_character_boundary(record, at - 1);
    }
}

} // verus!
