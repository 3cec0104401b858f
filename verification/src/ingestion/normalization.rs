//! Normalization: from the bytes of an admitted batch to typed rows and rejected records.

use vstd::prelude::*;
use vstd::utf8::{encode_utf8, valid_utf8};

use crate::calendar::{
    day_of, rfc3339_instant, rfc3339_milliseconds, utc_day, utc_representable, whole_millisecond,
};
use crate::catalog::{
    input_place, mapping_place, revision_place, schema_place, EventTimeFormat, Field, FieldRole,
    IngestionProfile, JsonPointer, LogicalType, Nullability, Schema, Source,
};
use crate::decimal::{
    array_index_of, decimal_below, float32_is_finite, float64_is_finite, integer_of,
    parse_array_index, parse_i64, parse_u64, FLOAT32_LIMIT, FLOAT64_LIMIT,
};
use crate::identity::{FieldId, IngestionProfileRevisionId, InputId, SchemaId, SourceId};
use crate::ingestion::model::BatchMetadata;
use crate::ingestion::output_recovery::{record_positions, strictly_increasing};
use crate::ingestion::record::{
    character_boundary, dead_letter_of, field_views, kept_bytes, occurrence_id, record_views,
    AcceptedRow, BatchView, DeadLetterCode, DeadLetterEntry, EventId, EventTime, NormalizedBatch,
    NormalizedField, NormalizedRecord, NormalizedValue, OutcomeView, RecordLocation, RowView,
    ValueView, DEAD_LETTER_PAYLOAD_PREFIX_BYTES,
};
use crate::json::{
    find_member, member_models, member_value, object_of, parse_object, Json, JsonObject, JsonValue,
};
use crate::text::{text_views, utf8_text};

verus! {

/// How many distinct event days the rows of one batch may fall on.
pub const MAXIMUM_BATCH_EVENT_DAYS: usize = 32;

/// Why the definitions that a batch is pinned to cannot be used.
#[derive(Clone, Copy, Debug, PartialEq, Eq, Structural)]
pub enum NormalizationError {
    SourceMismatch { pinned: SourceId, supplied: SourceId },
    InputNotFound { source_id: SourceId, input_id: InputId },
    ProfileRevisionNotFound {
        input_id: InputId,
        profile_revision_id: IngestionProfileRevisionId,
    },
    ProfileTargetMismatch { pinned_schema_id: SchemaId, profile_schema_id: SchemaId },
    SchemaNotFound { source_id: SourceId, schema_id: SchemaId },
    UnsupportedDataFieldType { field_id: FieldId },
    RequiredFieldMappingMissing { field_id: FieldId },
    PositionOverflow,
}

/// The conversion that a field's type asks for.
#[derive(Clone, Copy, Debug, PartialEq, Eq, Structural)]
pub enum Conversion {
    Bool,
    Int32,
    Int64,
    UInt32,
    UInt64,
    Float32,
    Float64,
    Utf8,
    Datetime,
}

/// The conversion to a logical type, if a data field may have that type.
pub open spec fn conversion_to(logical_type: LogicalType) -> Option<Conversion> {
    match logical_type {
        LogicalType::Bool => Some(Conversion::Bool),
        LogicalType::Int32 => Some(Conversion::Int32),
        LogicalType::Int64 => Some(Conversion::Int64),
        LogicalType::UInt32 => Some(Conversion::UInt32),
        LogicalType::UInt64 => Some(Conversion::UInt64),
        LogicalType::Float32 => Some(Conversion::Float32),
        LogicalType::Float64 => Some(Conversion::Float64),
        LogicalType::Utf8 => Some(Conversion::Utf8),
        LogicalType::Datetime => Some(Conversion::Datetime),
        LogicalType::Eid => None,
        LogicalType::Json => None,
    }
}

/// How the value of one field is found and converted.
#[derive(Debug)]
pub struct FieldPlan<'a> {
    pub field_id: FieldId,
    pub nullability: Nullability,
    pub conversion: Conversion,
    pub pointer: Option<&'a JsonPointer>,
}

/// What the plan of a field says.
pub struct FieldPlanView {
    pub field_id: FieldId,
    pub nullability: Nullability,
    pub conversion: Conversion,
    pub pointer: Option<Seq<Seq<char>>>,
}

impl<'a> View for FieldPlan<'a> {
    type V = FieldPlanView;

    open spec fn view(&self) -> FieldPlanView {
        FieldPlanView {
            field_id: self.field_id,
            nullability: self.nullability,
            conversion: self.conversion,
            pointer: match self.pointer {
                Some(pointer) => Some(text_views(pointer.tokens@)),
                None => None,
            },
        }
    }
}

pub open spec fn field_plan_views(plans: Seq<FieldPlan>) -> Seq<FieldPlanView> {
    Seq::new(plans.len(), |i: int| plans[i]@)
}

/// The plan of a field, or why it has none.
pub open spec fn field_plan_of(field: Field, profile: IngestionProfile) -> Result<
    FieldPlanView,
    NormalizationError,
> {
    match conversion_to(field.logical_type) {
        None => Err(NormalizationError::UnsupportedDataFieldType { field_id: field.id }),
        Some(conversion) => {
            let place = mapping_place(profile.mappings@, field.id, 0);
            if place is None && field.nullability == Nullability::NonNull {
                Err(NormalizationError::RequiredFieldMappingMissing { field_id: field.id })
            } else {
                Ok(
                    FieldPlanView {
                        field_id: field.id,
                        nullability: field.nullability,
                        conversion,
                        pointer: match place {
                            Some(at) => Some(
                                text_views(profile.mappings@[at].json_pointer.tokens@),
                            ),
                            None => None,
                        },
                    },
                )
            }
        },
    }
}

/// The plans of the data fields, or why the first that has none has none.
pub open spec fn field_plans_of(fields: Seq<Field>, profile: IngestionProfile) -> Result<
    Seq<FieldPlanView>,
    NormalizationError,
>
    decreases fields.len(),
{
    if fields.len() == 0 {
        Ok(Seq::empty())
    } else {
        match field_plans_of(fields.drop_last(), profile) {
            Err(e) => Err(e),
            Ok(plans) => if fields.last().role != FieldRole::Data {
                Ok(plans)
            } else {
                match field_plan_of(fields.last(), profile) {
                    Err(e) => Err(e),
                    Ok(plan) => Ok(plans.push(plan)),
                }
            },
        }
    }
}

/// Whether a pointer leads to the top-level member with this key.
pub open spec fn is_top_level(pointer: JsonPointer, key: Seq<char>) -> bool {
    pointer.tokens@.len() == 1 && pointer.tokens@[0]@ == key
}

/// Whether the top-level member with this key is mapped, and so no part of the remainder.
pub open spec fn is_mapped(profile: IngestionProfile, key: Seq<char>) -> bool {
    ||| is_top_level(profile.event_time.json_pointer, key)
    ||| exists|i: int|
        0 <= i < profile.mappings@.len() && is_top_level(
            #[trigger] profile.mappings@[i].json_pointer,
            key,
        )
}

/// How the records of a batch become rows.
pub struct NormalizationPlan<'a> {
    pub metadata: BatchMetadata,
    pub profile: &'a IngestionProfile,
    pub fields: Vec<FieldPlan<'a>>,
    pub removed_top_level_properties: Vec<&'a String>,
}

/// What a plan says.
pub struct PlanView {
    pub metadata: BatchMetadata,
    pub profile: IngestionProfile,
    pub fields: Seq<FieldPlanView>,
}

impl<'a> View for NormalizationPlan<'a> {
    type V = PlanView;

    open spec fn view(&self) -> PlanView {
        PlanView {
            metadata: self.metadata,
            profile: *self.profile,
            fields: field_plan_views(self.fields@),
        }
    }
}

impl<'a> NormalizationPlan<'a> {
    /// The properties to remove are those that the profile maps.
    pub open spec fn well_formed(self) -> bool {
        forall|key: Seq<char>| #[trigger]
            property_listed(self.removed_top_level_properties@, key) <==> is_mapped(
                *self.profile,
                key,
            )
    }
}

/// The plan of a batch, or why it has none.
pub open spec fn plan_of(metadata: BatchMetadata, source: Source) -> Result<
    PlanView,
    NormalizationError,
> {
    let pinned = metadata.catalog;
    if pinned.source_id != source.id {
        Err(
            NormalizationError::SourceMismatch { pinned: pinned.source_id, supplied: source.id },
        )
    } else {
        match input_place(source.inputs@, pinned.input_id, 0) {
            None => Err(
                NormalizationError::InputNotFound {
                    source_id: source.id,
                    input_id: pinned.input_id,
                },
            ),
            Some(input) => {
                let revisions = source.inputs@[input].profile_revisions@;
                match revision_place(revisions, pinned.profile_revision_id, 0) {
                    None => Err(
                        NormalizationError::ProfileRevisionNotFound {
                            input_id: source.inputs@[input].id,
                            profile_revision_id: pinned.profile_revision_id,
                        },
                    ),
                    Some(revision) => if revisions[revision].target_schema_id
                        != pinned.target_schema_id {
                        Err(
                            NormalizationError::ProfileTargetMismatch {
                                pinned_schema_id: pinned.target_schema_id,
                                profile_schema_id: revisions[revision].target_schema_id,
                            },
                        )
                    } else {
                        match schema_place(source.schemas@, pinned.target_schema_id, 0) {
                            None => Err(
                                NormalizationError::SchemaNotFound {
                                    source_id: source.id,
                                    schema_id: pinned.target_schema_id,
                                },
                            ),
                            Some(schema) => match field_plans_of(
                                source.schemas@[schema].fields@,
                                revisions[revision].profile,
                            ) {
                                Err(e) => Err(e),
                                Ok(fields) => Ok(
                                    PlanView {
                                        metadata,
                                        profile: revisions[revision].profile,
                                        fields,
                                    },
                                ),
                            },
                        }
                    },
                }
            },
        }
    }
}

/// Whether a property is listed.
pub open spec fn property_listed(properties: Seq<&String>, key: Seq<char>) -> bool {
    exists|i: int| 0 <= i < properties.len() && #[trigger] properties[i]@ == key
}

fn lists_property(properties: &Vec<&String>, key: &String) -> (r: bool)
    ensures
        r == property_listed(properties@, key@),
{
    let mut index: usize = 0;
    while index < properties.len()
        invariant
            index <= properties@.len(),
            forall|i: int| 0 <= i < index ==> #[trigger] properties@[i]@ != key@,
        decreases properties@.len() - index,
    {
        if *properties[index] == *key {
            assert(properties@[index as int]@ == key@);
            return true;
        }
        index = index + 1;
    }
    false
}

fn add_top_level_property<'a>(properties: &mut Vec<&'a String>, pointer: &'a JsonPointer)
    ensures
        forall|key: Seq<char>| #[trigger]
            property_listed(final(properties)@, key) <==> property_listed(old(properties)@, key)
                || is_top_level(*pointer, key),
{
    if pointer.tokens.len() == 1 && !lists_property(properties, &pointer.tokens[0]) {
        let ghost before = properties@;
        properties.push(&pointer.tokens[0]);
        assert forall|key: Seq<char>| #[trigger] property_listed(properties@, key)
            <==> property_listed(before, key) || is_top_level(*pointer, key) by {
            if property_listed(before, key) {
                let i = choose|i: int| 0 <= i < before.len() && #[trigger] before[i]@ == key;
                assert(properties@[i]@ == key);
            }
            assert(properties@[before.len() as int]@ == pointer.tokens@[0]@);
            if property_listed(properties@, key) {
                let i = choose|i: int|
                    0 <= i < properties@.len() && #[trigger] properties@[i]@ == key;
                if i < before.len() {
                    assert(before[i]@ == key);
                }
            }
        }
    }
}

fn conversion(logical_type: LogicalType) -> (r: Option<Conversion>)
    ensures
        r == conversion_to(logical_type),
{
    match logical_type {
        LogicalType::Bool => Some(Conversion::Bool),
        LogicalType::Int32 => Some(Conversion::Int32),
        LogicalType::Int64 => Some(Conversion::Int64),
        LogicalType::UInt32 => Some(Conversion::UInt32),
        LogicalType::UInt64 => Some(Conversion::UInt64),
        LogicalType::Float32 => Some(Conversion::Float32),
        LogicalType::Float64 => Some(Conversion::Float64),
        LogicalType::Utf8 => Some(Conversion::Utf8),
        LogicalType::Datetime => Some(Conversion::Datetime),
        LogicalType::Eid => None,
        LogicalType::Json => None,
    }
}

fn field_plan<'a>(field: &Field, profile: &'a IngestionProfile) -> (r: Result<
    FieldPlan<'a>,
    NormalizationError,
>)
    ensures
        match r {
            Ok(plan) => field_plan_of(*field, *profile) == Ok::<FieldPlanView, NormalizationError>(
                plan@,
            ),
            Err(e) => field_plan_of(*field, *profile) == Err::<FieldPlanView, NormalizationError>(
                e,
            ),
        },
{
    match conversion(field.logical_type) {
        None => Err(NormalizationError::UnsupportedDataFieldType { field_id: field.id }),
        Some(conversion) => {
            let pointer: Option<&'a JsonPointer> = profile.pointer_of(field.id);
            if pointer.is_none() && field.nullability == Nullability::NonNull {
                return Err(
                    NormalizationError::RequiredFieldMappingMissing { field_id: field.id },
                );
            }
            Ok(
                FieldPlan {
                    field_id: field.id,
                    nullability: field.nullability,
                    conversion,
                    pointer,
                },
            )
        },
    }
}

/// A fault in the first fields is the fault of all of them.
proof fn lemma_plan_fault_persists(fields: Seq<Field>, profile: IngestionProfile, count: int)
    requires
        0 <= count <= fields.len(),
        field_plans_of(fields.subrange(0, count), profile) is Err,
    ensures
        field_plans_of(fields, profile) == field_plans_of(fields.subrange(0, count), profile),
    decreases fields.len(),
{
    if count < fields.len() {
        assert(fields.drop_last().subrange(0, count) =~= fields.subrange(0, count));
        lemma_plan_fault_persists(fields.drop_last(), profile, count);
    } else {
        assert(fields.subrange(0, count) =~= fields);
    }
}

/// Plans the data fields of a schema, in their order.
pub fn field_plans<'a>(schema: &Schema, profile: &'a IngestionProfile) -> (r: Result<
    Vec<FieldPlan<'a>>,
    NormalizationError,
>)
    ensures
        match r {
            Ok(plans) => field_plans_of(schema.fields@, *profile) == Ok::<
                Seq<FieldPlanView>,
                NormalizationError,
            >(field_plan_views(plans@)),
            Err(e) => field_plans_of(schema.fields@, *profile) == Err::<
                Seq<FieldPlanView>,
                NormalizationError,
            >(e),
        },
{
    let ghost fields = schema.fields@;
    let mut plans: Vec<FieldPlan<'a>> = Vec::new();
    let mut index: usize = 0;
    assert(fields.subrange(0, 0) =~= Seq::empty());
    assert(field_plan_views(plans@) =~= Seq::empty());
    while index < schema.fields.len()
        invariant
            index <= fields.len(),
            fields == schema.fields@,
            field_plans_of(fields.subrange(0, index as int), *profile) == Ok::<
                Seq<FieldPlanView>,
                NormalizationError,
            >(field_plan_views(plans@)),
        decreases fields.len() - index,
    {
        let ghost through = fields.subrange(0, index + 1);
        let ghost before = field_plan_views(plans@);
        assert(through.drop_last() =~= fields.subrange(0, index as int));
        assert(through.last() == fields[index as int]);
        if schema.fields[index].role == FieldRole::Data {
            match field_plan(&schema.fields[index], profile) {
                Ok(plan) => {
                    plans.push(plan);
                    assert(field_plan_views(plans@) =~= before.push(plan@));
                },
                Err(e) => {
                    proof {
                        lemma_plan_fault_persists(fields, *profile, index + 1);
                    }
                    return Err(e);
                },
            }
        }
        index = index + 1;
    }
    assert(fields.subrange(0, fields.len() as int) =~= fields);
    Ok(plans)
}

impl<'a> NormalizationPlan<'a> {
    /// Looks up the definitions that a batch is pinned to, and plans its fields.
    pub fn resolve(metadata: BatchMetadata, source: &'a Source) -> (r: Result<
        Self,
        NormalizationError,
    >)
        ensures
            match r {
                Ok(plan) => plan.well_formed() && plan_of(metadata, *source) == Ok::<
                    PlanView,
                    NormalizationError,
                >(plan@),
                Err(e) => plan_of(metadata, *source) == Err::<PlanView, NormalizationError>(e),
            },
    {
        let pinned = metadata.catalog();
        if pinned.source_id() != source.id {
            return Err(
                NormalizationError::SourceMismatch {
                    pinned: pinned.source_id(),
                    supplied: source.id,
                },
            );
        }
        let input = match source.input(pinned.input_id()) {
            Some(input) => input,
            None => {
                return Err(
                    NormalizationError::InputNotFound {
                        source_id: source.id,
                        input_id: pinned.input_id(),
                    },
                );
            },
        };
        let revision = match input.profile_revision(pinned.profile_revision_id()) {
            Some(revision) => revision,
            None => {
                return Err(
                    NormalizationError::ProfileRevisionNotFound {
                        input_id: input.id,
                        profile_revision_id: pinned.profile_revision_id(),
                    },
                );
            },
        };
        if revision.target_schema_id != pinned.target_schema_id() {
            return Err(
                NormalizationError::ProfileTargetMismatch {
                    pinned_schema_id: pinned.target_schema_id(),
                    profile_schema_id: revision.target_schema_id,
                },
            );
        }
        let schema = match source.schema(pinned.target_schema_id()) {
            Some(schema) => schema,
            None => {
                return Err(
                    NormalizationError::SchemaNotFound {
                        source_id: source.id,
                        schema_id: pinned.target_schema_id(),
                    },
                );
            },
        };
        let profile: &'a IngestionProfile = &revision.profile;
        let fields: Vec<FieldPlan<'a>> = match field_plans(schema, profile) {
            Ok(fields) => fields,
            Err(e) => {
                return Err(e);
            },
        };
        let mut removed: Vec<&'a String> = Vec::new();
        add_top_level_property(&mut removed, &profile.event_time.json_pointer);
        let mut index: usize = 0;
        while index < profile.mappings.len()
            invariant
                index <= profile.mappings@.len(),
                forall|key: Seq<char>| #[trigger]
                    property_listed(removed@, key) <==> (is_top_level(
                        profile.event_time.json_pointer,
                        key,
                    ) || exists|i: int|
                        0 <= i < index && is_top_level(
                            #[trigger] profile.mappings@[i].json_pointer,
                            key,
                        )),
            decreases profile.mappings@.len() - index,
        {
            let ghost before = removed@;
            add_top_level_property(&mut removed, &profile.mappings[index].json_pointer);
            assert forall|key: Seq<char>| #[trigger] property_listed(removed@, key) <==> (
            is_top_level(profile.event_time.json_pointer, key) || exists|i: int|
                0 <= i < index + 1 && is_top_level(
                    #[trigger] profile.mappings@[i].json_pointer,
                    key,
                )) by {
                assert(property_listed(before, key) <==> (is_top_level(
                    profile.event_time.json_pointer,
                    key,
                ) || exists|i: int|
                    0 <= i < index && is_top_level(
                        #[trigger] profile.mappings@[i].json_pointer,
                        key,
                    )));
                assert(is_top_level(profile.mappings@[index as int].json_pointer, key)
                    || !is_top_level(profile.mappings@[index as int].json_pointer, key));
            }
            index = index + 1;
        }
        Ok(NormalizationPlan { metadata, profile, fields, removed_top_level_properties: removed })
    }
}

/// The value that a pointer leads to.
pub open spec fn pointed_value(root: Json, tokens: Seq<Seq<char>>) -> Option<Json>
    decreases tokens.len(),
{
    if tokens.len() == 0 {
        Some(root)
    } else {
        let rest = tokens.subrange(1, tokens.len() as int);
        match root {
            Json::Object(members) => match member_value(members, tokens[0]) {
                Some(value) => pointed_value(value, rest),
                None => None,
            },
            Json::Array(items) => match array_index_of(encode_utf8(tokens[0])) {
                Some(place) => if place < items.len() {
                    pointed_value(items[place as int], rest)
                } else {
                    None
                },
                None => None,
            },
            _ => None,
        }
    }
}

/// Follows a pointer.
pub fn resolve_pointer<'a>(root: &'a JsonValue, pointer: &JsonPointer) -> (r: Option<
    &'a JsonValue,
>)
    ensures
        match r {
            Some(value) => pointed_value(root.model(), text_views(pointer.tokens@)) == Some(
                value.model(),
            ),
            None => pointed_value(root.model(), text_views(pointer.tokens@)) is None,
        },
{
    let ghost tokens = text_views(pointer.tokens@);
    let mut current: &'a JsonValue = root;
    let mut index: usize = 0;
    assert(tokens.subrange(0, tokens.len() as int) =~= tokens);
    while index < pointer.tokens.len()
        invariant
            index <= pointer.tokens@.len(),
            tokens == text_views(pointer.tokens@),
            pointed_value(root.model(), tokens) == pointed_value(
                current.model(),
                tokens.subrange(index as int, tokens.len() as int),
            ),
        decreases pointer.tokens@.len() - index,
    {
        let ghost left = tokens.subrange(index as int, tokens.len() as int);
        assert(left[0] == pointer.tokens@[index as int]@);
        assert(left.subrange(1, left.len() as int) =~= tokens.subrange(
            index + 1,
            tokens.len() as int,
        ));
        match current {
            JsonValue::Object(object) => {
                proof {
                    crate::json::lemma_object_model(*object);
                }
                match find_member(&object.members, &pointer.tokens[index]) {
                    Some(value) => {
                        current = value;
                    },
                    None => {
                        return None;
                    },
                }
            },
            JsonValue::Array(items) => {
                proof {
                    crate::json::lemma_array_model(*items);
                }
                match parse_array_index(pointer.tokens[index].as_str().as_bytes(), items.len()) {
                    Some(place) => {
                        current = &items[place];
                    },
                    None => {
                        return None;
                    },
                }
            },
            _ => {
                return None;
            },
        }
        index = index + 1;
    }
    assert(tokens.subrange(index as int, tokens.len() as int) =~= Seq::empty());
    Some(current)
}

/// The integer that a number denotes, if a signed 64-bit integer can hold it.
pub open spec fn signed_value(value: Json) -> Option<i64> {
    match value {
        Json::Number(text) => match integer_of(encode_utf8(text)) {
            Some(integer) => if i64::MIN <= integer <= i64::MAX {
                Some(integer as i64)
            } else {
                None
            },
            None => None,
        },
        _ => None,
    }
}

/// The integer that a number denotes, if an unsigned 64-bit integer can hold it.
pub open spec fn unsigned_value(value: Json) -> Option<u64> {
    match value {
        Json::Number(text) => match integer_of(encode_utf8(text)) {
            Some(integer) => if 0 <= integer <= u64::MAX {
                Some(integer as u64)
            } else {
                None
            },
            None => None,
        },
        _ => None,
    }
}

fn integer_i64(value: &JsonValue) -> (r: Option<i64>)
    ensures
        r == signed_value(value.model()),
{
    match value {
        JsonValue::Number(text) => parse_i64(text.as_str().as_bytes()),
        _ => None,
    }
}

fn integer_u64(value: &JsonValue) -> (r: Option<u64>)
    ensures
        r == unsigned_value(value.model()),
{
    match value {
        JsonValue::Number(text) => parse_u64(text.as_str().as_bytes()),
        _ => None,
    }
}

/// The instant that a value denotes, in milliseconds since the Unix epoch.
pub open spec fn instant_of(value: Json, format: EventTimeFormat) -> Option<i64> {
    match format {
        EventTimeFormat::Rfc3339 => match value {
            Json::Text(text) => whole_millisecond(rfc3339_instant(text)),
            _ => None,
        },
        EventTimeFormat::UnixMilliseconds => match signed_value(value) {
            Some(milliseconds) => if utc_representable(milliseconds as int) {
                Some(milliseconds)
            } else {
                None
            },
            None => None,
        },
    }
}

fn parse_datetime(value: &JsonValue, format: EventTimeFormat) -> (r: Option<i64>)
    ensures
        r == instant_of(value.model(), format),
        r matches Some(milliseconds) ==> utc_representable(milliseconds as int),
{
    match format {
        EventTimeFormat::Rfc3339 => match value {
            JsonValue::String(text) => rfc3339_milliseconds(text.as_str()),
            _ => None,
        },
        EventTimeFormat::UnixMilliseconds => match integer_i64(value) {
            Some(milliseconds) => match day_of(milliseconds) {
                Some(_) => Some(milliseconds),
                None => None,
            },
            None => None,
        },
    }
}

/// What a value becomes under a conversion.
pub open spec fn converted(value: Json, conversion: Conversion, format: EventTimeFormat) -> Option<
    ValueView,
> {
    match conversion {
        Conversion::Bool => match value {
            Json::Bool(flag) => Some(ValueView::Bool(flag)),
            _ => None,
        },
        Conversion::Int32 => match signed_value(value) {
            Some(integer) => if i32::MIN <= integer <= i32::MAX {
                Some(ValueView::Int32(integer as i32))
            } else {
                None
            },
            None => None,
        },
        Conversion::Int64 => match signed_value(value) {
            Some(integer) => Some(ValueView::Int64(integer)),
            None => None,
        },
        Conversion::UInt32 => match unsigned_value(value) {
            Some(integer) => if integer <= u32::MAX {
                Some(ValueView::UInt32(integer as u32))
            } else {
                None
            },
            None => None,
        },
        Conversion::UInt64 => match unsigned_value(value) {
            Some(integer) => Some(ValueView::UInt64(integer)),
            None => None,
        },
        Conversion::Float32 => match value {
            Json::Number(text) => if decimal_below(encode_utf8(text), FLOAT32_LIMIT@) {
                Some(ValueView::Float32(text))
            } else {
                None
            },
            _ => None,
        },
        Conversion::Float64 => match value {
            Json::Number(text) => if decimal_below(encode_utf8(text), FLOAT64_LIMIT@) {
                Some(ValueView::Float64(text))
            } else {
                None
            },
            _ => None,
        },
        Conversion::Utf8 => match value {
            Json::Text(text) => Some(ValueView::Utf8(text)),
            _ => None,
        },
        Conversion::Datetime => match instant_of(value, format) {
            Some(milliseconds) => Some(ValueView::Datetime(milliseconds)),
            None => None,
        },
    }
}

/// Converts a value.
pub fn convert_value(
    value: &JsonValue,
    conversion: Conversion,
    datetime_format: EventTimeFormat,
) -> (r: Option<NormalizedValue>)
    ensures
        match r {
            Some(normalized) => converted(value.model(), conversion, datetime_format) == Some(
                normalized@,
            ),
            None => converted(value.model(), conversion, datetime_format) is None,
        },
{
    match conversion {
        Conversion::Bool => match value {
            JsonValue::Bool(flag) => Some(NormalizedValue::Bool(*flag)),
            _ => None,
        },
        Conversion::Int32 => match integer_i64(value) {
            Some(integer) => if -2_147_483_648 <= integer && integer <= 2_147_483_647 {
                Some(NormalizedValue::Int32(integer as i32))
            } else {
                None
            },
            None => None,
        },
        Conversion::Int64 => match integer_i64(value) {
            Some(integer) => Some(NormalizedValue::Int64(integer)),
            None => None,
        },
        Conversion::UInt32 => match integer_u64(value) {
            Some(integer) => if integer <= 4_294_967_295 {
                Some(NormalizedValue::UInt32(integer as u32))
            } else {
                None
            },
            None => None,
        },
        Conversion::UInt64 => match integer_u64(value) {
            Some(integer) => Some(NormalizedValue::UInt64(integer)),
            None => None,
        },
        Conversion::Float32 => match value {
            JsonValue::Number(text) => if float32_is_finite(text.as_str().as_bytes()) {
                Some(NormalizedValue::Float32(text.clone()))
            } else {
                None
            },
            _ => None,
        },
        Conversion::Float64 => match value {
            JsonValue::Number(text) => if float64_is_finite(text.as_str().as_bytes()) {
                Some(NormalizedValue::Float64(text.clone()))
            } else {
                None
            },
            _ => None,
        },
        Conversion::Utf8 => match value {
            JsonValue::String(text) => Some(NormalizedValue::Utf8(text.clone())),
            _ => None,
        },
        Conversion::Datetime => match parse_datetime(value, datetime_format) {
            Some(milliseconds) => Some(NormalizedValue::Datetime(milliseconds)),
            None => None,
        },
    }
}

/// The value of a field in a record, or why the record is rejected for it.
pub open spec fn field_value_of(root: Json, plan: FieldPlanView, format: EventTimeFormat) -> Result<
    ValueView,
    DeadLetterCode,
> {
    let pointed = match plan.pointer {
        Some(tokens) => pointed_value(root, tokens),
        None => None,
    };
    match pointed {
        None => if plan.nullability == Nullability::Nullable {
            Ok(ValueView::Null)
        } else {
            Err(DeadLetterCode::FieldMissing)
        },
        Some(Json::Null) => if plan.nullability == Nullability::Nullable {
            Ok(ValueView::Null)
        } else {
            Err(DeadLetterCode::FieldNull)
        },
        Some(value) => match converted(value, plan.conversion, format) {
            Some(normalized) => Ok(normalized),
            None => Err(DeadLetterCode::ConversionFailed),
        },
    }
}

/// The values of fields in a record, or why the record is rejected for the first that has none.
pub open spec fn field_values_of(
    root: Json,
    plans: Seq<FieldPlanView>,
    format: EventTimeFormat,
) -> Result<Seq<(FieldId, ValueView)>, DeadLetterCode>
    decreases plans.len(),
{
    if plans.len() == 0 {
        Ok(Seq::empty())
    } else {
        match field_values_of(root, plans.drop_last(), format) {
            Err(e) => Err(e),
            Ok(values) => match field_value_of(root, plans.last(), format) {
                Err(e) => Err(e),
                Ok(value) => Ok(values.push((plans.last().field_id, value))),
            },
        }
    }
}

fn nullable_value(nullability: Nullability, non_null_error: DeadLetterCode) -> (r: Result<
    NormalizedValue,
    DeadLetterCode,
>)
    ensures
        match r {
            Ok(value) => nullability == Nullability::Nullable && value@ == ValueView::Null,
            Err(e) => nullability == Nullability::NonNull && e == non_null_error,
        },
{
    match nullability {
        Nullability::Nullable => Ok(NormalizedValue::Null),
        Nullability::NonNull => Err(non_null_error),
    }
}

fn field_value(root: &JsonValue, plan: &FieldPlan<'_>, format: EventTimeFormat) -> (r: Result<
    NormalizedValue,
    DeadLetterCode,
>)
    ensures
        match r {
            Ok(value) => field_value_of(root.model(), plan@, format) == Ok::<
                ValueView,
                DeadLetterCode,
            >(value@),
            Err(e) => field_value_of(root.model(), plan@, format) == Err::<
                ValueView,
                DeadLetterCode,
            >(e),
        },
{
    let pointed: Option<&JsonValue> = match plan.pointer {
        Some(pointer) => resolve_pointer(root, pointer),
        None => None,
    };
    match pointed {
        None => nullable_value(plan.nullability, DeadLetterCode::FieldMissing),
        Some(JsonValue::Null) => nullable_value(plan.nullability, DeadLetterCode::FieldNull),
        Some(value) => match convert_value(value, plan.conversion, format) {
            Some(normalized) => Ok(normalized),
            None => Err(DeadLetterCode::ConversionFailed),
        },
    }
}

/// A fault in the first fields is the fault of all of them.
proof fn lemma_value_fault_persists(
    root: Json,
    plans: Seq<FieldPlanView>,
    format: EventTimeFormat,
    count: int,
)
    requires
        0 <= count <= plans.len(),
        field_values_of(root, plans.subrange(0, count), format) is Err,
    ensures
        field_values_of(root, plans, format) == field_values_of(
            root,
            plans.subrange(0, count),
            format,
        ),
    decreases plans.len(),
{
    if count < plans.len() {
        assert(plans.drop_last().subrange(0, count) =~= plans.subrange(0, count));
        lemma_value_fault_persists(root, plans.drop_last(), format, count);
    } else {
        assert(plans.subrange(0, count) =~= plans);
    }
}

fn field_values(root: &JsonValue, plans: &Vec<FieldPlan<'_>>, format: EventTimeFormat) -> (r: Result<
    Vec<NormalizedField>,
    DeadLetterCode,
>)
    ensures
        match r {
            Ok(fields) => field_values_of(root.model(), field_plan_views(plans@), format) == Ok::<
                Seq<(FieldId, ValueView)>,
                DeadLetterCode,
            >(field_views(fields@)),
            Err(e) => field_values_of(root.model(), field_plan_views(plans@), format) == Err::<
                Seq<(FieldId, ValueView)>,
                DeadLetterCode,
            >(e),
        },
{
    let ghost views = field_plan_views(plans@);
    let mut fields: Vec<NormalizedField> = Vec::new();
    let mut index: usize = 0;
    assert(views.subrange(0, 0) =~= Seq::empty());
    assert(field_views(fields@) =~= Seq::empty());
    while index < plans.len()
        invariant
            index <= plans@.len(),
            views == field_plan_views(plans@),
            field_values_of(root.model(), views.subrange(0, index as int), format) == Ok::<
                Seq<(FieldId, ValueView)>,
                DeadLetterCode,
            >(field_views(fields@)),
        decreases plans@.len() - index,
    {
        let ghost through = views.subrange(0, index + 1);
        let ghost before = field_views(fields@);
        assert(through.drop_last() =~= views.subrange(0, index as int));
        assert(through.last() == plans@[index as int]@);
        match field_value(root, &plans[index], format) {
            Ok(value) => {
                let field_id: FieldId = plans[index].field_id;
                let ghost added = (field_id, value@);
                fields.push(NormalizedField { field_id, value });
                assert(field_views(fields@) =~= before.push(added));
            },
            Err(e) => {
                proof {
                    lemma_value_fault_persists(root.model(), views, format, index + 1);
                }
                return Err(e);
            },
        }
        index = index + 1;
    }
    assert(views.subrange(0, views.len() as int) =~= views);
    Ok(fields)
}

/// The members that the profile does not map.
pub open spec fn unmapped(members: Seq<(Seq<char>, Json)>, profile: IngestionProfile) -> Seq<
    (Seq<char>, Json),
>
    decreases members.len(),
{
    if members.len() == 0 {
        Seq::empty()
    } else if is_mapped(profile, members.last().0) {
        unmapped(members.drop_last(), profile)
    } else {
        unmapped(members.drop_last(), profile).push(members.last())
    }
}

fn remainder_of(object: JsonObject, plan: &NormalizationPlan<'_>) -> (r: Option<JsonObject>)
    requires
        plan.well_formed(),
    ensures
        ({
            let rest = unmapped(object@, *plan.profile);
            match r {
                Some(remainder) => rest.len() > 0 && remainder@ == rest,
                None => rest.len() == 0,
            }
        }),
{
    let ghost all = object.members@;
    let ghost models = member_models(all);
    let mut members: Vec<(String, JsonValue)> = Vec::new();
    let source: Vec<(String, JsonValue)> = object.members;
    assert(models.subrange(0, 0) =~= Seq::empty());
    assert(member_models(members@) =~= Seq::empty());
    for member in iter: source
        invariant
            iter.seq() == all,
            models == member_models(all),
            plan.well_formed(),
            member_models(members@) == unmapped(
                models.subrange(0, iter.index() as int),
                *plan.profile,
            ),
    {
        let ghost at = iter.index() as int;
        let ghost through = models.subrange(0, at + 1);
        let ghost before = member_models(members@);
        assert(through.drop_last() =~= models.subrange(0, at));
        assert(through.last() == (member.0@, member.1.model()));
        let ghost model = (member.0@, member.1.model());
        let mapped: bool = lists_property(&plan.removed_top_level_properties, &member.0);
        assert(property_listed(plan.removed_top_level_properties@, member.0@) <==> is_mapped(
            *plan.profile,
            member.0@,
        ));
        if !mapped {
            members.push(member);
            assert(member_models(members@) =~= before.push(model));
        }
    }
    assert(models.subrange(0, models.len() as int) =~= models);
    if members.len() == 0 {
        None
    } else {
        Some(JsonObject { members })
    }
}

/// The row that a record becomes, or why it is rejected.
pub open spec fn row_of(plan: PlanView, record: Seq<u8>, location: RecordLocation) -> Result<
    RowView,
    DeadLetterCode,
> {
    match object_of(record) {
        None => Err(DeadLetterCode::ParseFailed),
        Some(members) => {
            let root = Json::Object(members);
            let format = plan.profile.event_time.format;
            let event_time = match pointed_value(
                root,
                text_views(plan.profile.event_time.json_pointer.tokens@),
            ) {
                Some(value) => instant_of(value, format),
                None => None,
            };
            match event_time {
                None => Err(DeadLetterCode::EventTimeInvalid),
                Some(milliseconds) => match field_values_of(root, plan.fields, format) {
                    Err(e) => Err(e),
                    Ok(fields) => {
                        let rest = unmapped(members, plan.profile);
                        Ok(
                            RowView {
                                location,
                                event_time: milliseconds,
                                ingestion_time: plan.metadata.ingestion_time,
                                event_id: occurrence_id(
                                    plan.metadata.batch_id.spec_value(),
                                    location.input_position,
                                ),
                                fields,
                                remainder: if rest.len() == 0 {
                                    None
                                } else {
                                    Some(rest)
                                },
                            },
                        )
                    },
                },
            }
        },
    }
}

/// Makes a row of a record.
pub fn normalize_record(
    plan: &NormalizationPlan<'_>,
    record: &[u8],
    location: RecordLocation,
) -> (r: Result<AcceptedRow, DeadLetterCode>)
    requires
        plan.well_formed(),
    ensures
        match r {
            Ok(row) => row_of(plan@, record@, location) == Ok::<RowView, DeadLetterCode>(row@),
            Err(e) => row_of(plan@, record@, location) == Err::<RowView, DeadLetterCode>(e),
        },
{
    let object: JsonObject = match parse_object(record) {
        Some(object) => object,
        None => {
            return Err(DeadLetterCode::ParseFailed);
        },
    };
    proof {
        crate::json::lemma_object_model(object);
    }
    let root: JsonValue = JsonValue::Object(object);
    let format: EventTimeFormat = plan.profile.event_time.format;
    let milliseconds: Option<i64> = match resolve_pointer(
        &root,
        &plan.profile.event_time.json_pointer,
    ) {
        Some(value) => parse_datetime(value, format),
        None => None,
    };
    let event_time: EventTime = match milliseconds {
        Some(value) => match EventTime::from_unix_milliseconds(value) {
            Some(time) => time,
            None => {
                return Err(DeadLetterCode::EventTimeInvalid);
            },
        },
        None => {
            return Err(DeadLetterCode::EventTimeInvalid);
        },
    };
    let fields: Vec<NormalizedField> = match field_values(&root, &plan.fields, format) {
        Ok(fields) => fields,
        Err(e) => {
            return Err(e);
        },
    };
    let remainder: Option<JsonObject> = match root {
        JsonValue::Object(object) => remainder_of(object, plan),
        _ => {
            return Err(DeadLetterCode::ParseFailed);
        },
    };
    Ok(
        AcceptedRow {
            location,
            event_time,
            ingestion_time: plan.metadata.ingestion_time(),
            event_id: EventId::for_occurrence(plan.metadata.batch_id(), location.input_position()),
            fields,
            remainder,
        },
    )
}

/// One line of a batch: its number, and where its bytes start and end.
pub struct Occurrence {
    pub line: nat,
    pub start: int,
    pub end: int,
}

/// The first line feed from `from` on, or the end.
pub open spec fn line_feed(body: Seq<u8>, from: int) -> int
    decreases body.len() - from,
{
    if !(0 <= from < body.len()) || body[from] == 10 {
        from
    } else {
        line_feed(body, from + 1)
    }
}

/// Where the bytes of a line that a line feed ends end: before a carriage return.
pub open spec fn payload_end(body: Seq<u8>, start: int, delimiter: int) -> int {
    if delimiter > start && body[delimiter - 1] == 13 {
        delimiter - 1
    } else {
        delimiter
    }
}

/// The lines from `start` on.
pub open spec fn occurrences(body: Seq<u8>, start: int, line: nat) -> Seq<Occurrence>
    decreases body.len() - start,
{
    let delimiter = line_feed(body, start);
    if 0 <= start <= delimiter < body.len() {
        seq![Occurrence { line, start, end: payload_end(body, start, delimiter) }] + occurrences(
            body,
            delimiter + 1,
            line + 1,
        )
    } else if 0 <= start < body.len() {
        seq![Occurrence { line, start, end: body.len() as int }]
    } else {
        Seq::empty()
    }
}

pub open spec fn is_ascii_whitespace(byte: u8) -> bool {
    byte == 32 || byte == 9 || byte == 10 || byte == 12 || byte == 13
}

pub open spec fn is_blank(record: Seq<u8>) -> bool {
    forall|i: int| 0 <= i < record.len() ==> is_ascii_whitespace(#[trigger] record[i])
}

/// What became of the lines so far: the records, the number of blank lines, and the event days in
/// the order of their first occurrence.
#[verifier::ext_equal]
pub struct BatchProgress {
    pub records: Seq<OutcomeView>,
    pub ignored: nat,
    pub days: Seq<int>,
}

/// What becomes of a line that is not blank, before the days of the batch are counted.
pub open spec fn line_outcome(plan: PlanView, record: Seq<u8>, location: RecordLocation) -> Result<
    RowView,
    DeadLetterCode,
> {
    if record.len() > plan.profile.maximum_record_bytes {
        Err(DeadLetterCode::TooLarge)
    } else if !valid_utf8(record) {
        Err(DeadLetterCode::InvalidUtf8)
    } else {
        row_of(plan, record, location)
    }
}

/// What one more line adds.
pub open spec fn with_line(
    progress: BatchProgress,
    plan: PlanView,
    body: Seq<u8>,
    line: Occurrence,
) -> BatchProgress {
    let record = body.subrange(line.start, line.end);
    let location = RecordLocation {
        line_number: line.line as u64,
        input_position: line.start as u64,
    };
    let batch_id = plan.metadata.batch_id;
    if is_blank(record) {
        BatchProgress { ignored: progress.ignored + 1, ..progress }
    } else {
        match line_outcome(plan, record, location) {
            Err(code) => BatchProgress {
                records: progress.records.push(
                    OutcomeView::DeadLetter(dead_letter_of(batch_id, location, code, record)),
                ),
                ..progress
            },
            Ok(row) => {
                let day = utc_day(row.event_time as int);
                if progress.days.contains(day) {
                    BatchProgress {
                        records: progress.records.push(OutcomeView::Accepted(row)),
                        ..progress
                    }
                } else if progress.days.len() >= MAXIMUM_BATCH_EVENT_DAYS {
                    BatchProgress {
                        records: progress.records.push(
                            OutcomeView::DeadLetter(
                                dead_letter_of(
                                    batch_id,
                                    location,
                                    DeadLetterCode::EventDayLimitExceeded,
                                    record,
                                ),
                            ),
                        ),
                        ..progress
                    }
                } else {
                    BatchProgress {
                        records: progress.records.push(OutcomeView::Accepted(row)),
                        ignored: progress.ignored,
                        days: progress.days.push(day),
                    }
                }
            },
        }
    }
}

/// What became of lines.
pub open spec fn progress_through(
    plan: PlanView,
    body: Seq<u8>,
    lines: Seq<Occurrence>,
) -> BatchProgress
    decreases lines.len(),
{
    if lines.len() == 0 {
        BatchProgress { records: Seq::empty(), ignored: 0, days: Seq::empty() }
    } else {
        with_line(progress_through(plan, body, lines.drop_last()), plan, body, lines.last())
    }
}

/// What a batch becomes.
pub open spec fn batch_of(plan: PlanView, body: Seq<u8>) -> BatchView {
    let progress = progress_through(plan, body, occurrences(body, 0, 1));
    BatchView {
        metadata: plan.metadata,
        records: progress.records,
        ignored_records: progress.ignored,
    }
}

/// The days of accepted rows, in the order of their first occurrence.
pub open spec fn day_values(days: Seq<i32>) -> Seq<int> {
    Seq::new(days.len(), |i: int| days[i] as int)
}

/// The records of a batch while they are read.
struct BatchBuilder {
    records: Vec<NormalizedRecord>,
    ignored_records: u64,
    days: Vec<i32>,
}

impl BatchBuilder {
    spec fn progress(self) -> BatchProgress {
        BatchProgress {
            records: record_views(self.records@),
            ignored: self.ignored_records as nat,
            days: day_values(self.days@),
        }
    }

    fn push(&mut self, record: NormalizedRecord)
        ensures
            record_views(final(self).records@) == record_views(old(self).records@).push(record@),
            final(self).ignored_records == old(self).ignored_records,
            final(self).days == old(self).days,
    {
        let ghost before = record_views(self.records@);
        self.records.push(record);
        assert(record_views(self.records@) =~= before.push(record@));
    }

    /// Admits a day if it is known or the limit is not reached.
    fn admit_day(&mut self, day: i32) -> (r: bool)
        ensures
            final(self).records == old(self).records,
            final(self).ignored_records == old(self).ignored_records,
            ({
                let days = day_values(old(self).days@);
                if days.contains(day as int) {
                    r && final(self).days == old(self).days
                } else if days.len() >= MAXIMUM_BATCH_EVENT_DAYS {
                    !r && final(self).days == old(self).days
                } else {
                    r && day_values(final(self).days@) == days.push(day as int)
                }
            }),
    {
        let ghost days = day_values(self.days@);
        let mut index: usize = 0;
        while index < self.days.len()
            invariant
                index <= self.days@.len(),
                days == day_values(self.days@),
                self == old(self),
                forall|i: int| 0 <= i < index ==> #[trigger] days[i] != day,
            decreases self.days@.len() - index,
        {
            if self.days[index] == day {
                assert(days[index as int] == day);
                return true;
            }
            index = index + 1;
        }
        if self.days.len() >= MAXIMUM_BATCH_EVENT_DAYS {
            return false;
        }
        self.days.push(day);
        assert(day_values(self.days@) =~= days.push(day as int));
        true
    }
}

fn record_is_blank(record: &[u8]) -> (r: bool)
    ensures
        r == is_blank(record@),
{
    let mut index: usize = 0;
    while index < record.len()
        invariant
            index <= record@.len(),
            forall|i: int| 0 <= i < index ==> is_ascii_whitespace(#[trigger] record@[i]),
        decreases record@.len() - index,
    {
        let byte: u8 = record[index];
        if !(byte == 32 || byte == 9 || byte == 10 || byte == 12 || byte == 13) {
            assert(!is_ascii_whitespace(record@[index as int]));
            return false;
        }
        index = index + 1;
    }
    true
}

/// What becomes of a line that is not blank, before the days of the batch are counted.
fn classify_line(plan: &NormalizationPlan<'_>, record: &[u8], location: RecordLocation) -> (r:
    Result<AcceptedRow, DeadLetterCode>)
    requires
        plan.well_formed(),
    ensures
        match r {
            Ok(row) => line_outcome(plan@, record@, location) == Ok::<RowView, DeadLetterCode>(
                row@,
            ),
            Err(e) => line_outcome(plan@, record@, location) == Err::<RowView, DeadLetterCode>(e),
        },
{
    let byte_count: u64 = record.len() as u64;
    if byte_count > plan.profile.maximum_record_bytes {
        return Err(DeadLetterCode::TooLarge);
    }
    if utf8_text(record).is_none() {
        return Err(DeadLetterCode::InvalidUtf8);
    }
    normalize_record(plan, record, location)
}

/// Adds what one line becomes.
fn normalize_occurrence(
    plan: &NormalizationPlan<'_>,
    record: &[u8],
    location: RecordLocation,
    batch: &mut BatchBuilder,
    Ghost(body): Ghost<Seq<u8>>,
    Ghost(line): Ghost<Occurrence>,
)
    requires
        plan.well_formed(),
        record@ == body.subrange(line.start, line.end),
        location.line_number == line.line as u64,
        location.input_position == line.start as u64,
        old(batch).ignored_records < u64::MAX,
    ensures
        final(batch).progress() == with_line(old(batch).progress(), plan@, body, line),
        final(batch).ignored_records <= old(batch).ignored_records + 1,
{
    if record_is_blank(record) {
        batch.ignored_records = batch.ignored_records + 1;
        return ;
    }
    let batch_id = plan.metadata.batch_id();
    match classify_line(plan, record, location) {
        Ok(row) => {
            let day: i32 = row.event_time.day();
            if batch.admit_day(day) {
                batch.push(NormalizedRecord::Accepted(row));
            } else {
                batch.push(
                    NormalizedRecord::DeadLetter(
                        DeadLetterEntry::new(
                            batch_id,
                            location,
                            DeadLetterCode::EventDayLimitExceeded,
                            record,
                        ),
                    ),
                );
            }
        },
        Err(code) => {
            batch.push(
                NormalizedRecord::DeadLetter(
                    DeadLetterEntry::new(batch_id, location, code, record),
                ),
            );
        },
    }
}

fn find_line_feed(body: &[u8], from: usize) -> (r: usize)
    requires
        from <= body@.len(),
    ensures
        r == line_feed(body@, from as int),
        from <= r <= body@.len(),
        r < body@.len() ==> body@[r as int] == 10,
{
    let mut at: usize = from;
    while at < body.len() && body[at] != 10
        invariant
            from <= at <= body@.len(),
            line_feed(body@, from as int) == line_feed(body@, at as int),
        decreases body@.len() - at,
    {
        at = at + 1;
    }
    at
}

/// How many line feeds stand before a place.
pub open spec fn line_feeds(body: Seq<u8>, before: int) -> nat
    decreases before,
{
    if before <= 0 {
        0
    } else {
        line_feeds(body, before - 1) + if body[before - 1] == 10 {
            1nat
        } else {
            0nat
        }
    }
}

/// Whether the number of the line behind the last line feed cannot be represented.
pub open spec fn lines_overflow(body: Seq<u8>) -> bool {
    line_feeds(body, body.len() as int) >= u64::MAX
}

proof fn lemma_line_feeds_grow(body: Seq<u8>, from: int, to: int)
    requires
        0 <= from <= to,
    ensures
        line_feeds(body, from) <= line_feeds(body, to) <= line_feeds(body, from) + to - from,
    decreases to - from,
{
    if from < to {
        lemma_line_feeds_grow(body, from, to - 1);
    }
}

proof fn lemma_line_feeds_between(body: Seq<u8>, from: int, to: int)
    requires
        0 <= from <= to <= line_feed(body, from),
    ensures
        line_feeds(body, to) == line_feeds(body, from),
    decreases to - from,
{
    if from < to {
        lemma_line_feeds_between(body, from + 1, to);
    }
}

/// Makes rows and rejected records of the lines of a batch, or nothing if they cannot be numbered.
fn normalize_lines(plan: &NormalizationPlan<'_>, body: &[u8]) -> (r: Option<NormalizedBatch>)
    requires
        plan.well_formed(),
    ensures
        match r {
            Some(batch) => !lines_overflow(body@) && batch@ == batch_of(plan@, body@),
            None => lines_overflow(body@),
        },
{
    let available: usize = body.len();
    let mut batch: BatchBuilder = BatchBuilder {
        records: Vec::new(),
        ignored_records: 0,
        days: Vec::new(),
    };
    let mut record_start: usize = 0;
    let mut line_number: u64 = 1;
    let ghost all = occurrences(body@, 0, 1);
    let ghost mut done: Seq<Occurrence> = Seq::empty();
    assert(batch.progress() =~= progress_through(plan@, body@, done));
    assert(done + all =~= all);
    while record_start < available
        invariant
            plan.well_formed(),
            available == body@.len(),
            record_start <= available,
            record_start < available ==> line_number == line_feeds(body@, record_start as int) + 1,
            line_feeds(body@, record_start as int) < u64::MAX,
            batch.ignored_records <= record_start,
            all == occurrences(body@, 0, 1),
            all == done + occurrences(body@, record_start as int, line_number as nat),
            batch.progress() == progress_through(plan@, body@, done),
        decreases available - record_start,
    {
        let delimiter: usize = find_line_feed(body, record_start);
        let terminated: bool = delimiter < available;
        let end: usize = if terminated && delimiter > record_start && body[delimiter - 1] == 13 {
            delimiter - 1
        } else {
            delimiter
        };
        let record: &[u8] = vstd::slice::slice_subrange(body, record_start, end);
        let location: RecordLocation = RecordLocation::new(line_number, record_start as u64);
        let ghost line = Occurrence {
            line: line_number as nat,
            start: record_start as int,
            end: end as int,
        };
        normalize_occurrence(plan, record, location, &mut batch, Ghost(body@), Ghost(line));
        proof {
            let before = done;
            done = done.push(line);
            assert(done.drop_last() =~= before);
            let behind = if terminated {
                delimiter + 1
            } else {
                available as int
            };
            let rest = occurrences(body@, record_start as int, line_number as nat);
            if terminated {
                assert(rest =~= seq![line] + occurrences(body@, behind, line_number as nat + 1));
            } else {
                assert(rest =~= seq![line]);
                assert(line_feed(body@, available as int) == available);
                assert(occurrences(body@, behind, line_number as nat + 1) =~= Seq::empty());
            }
            assert(all =~= done + occurrences(body@, behind, line_number as nat + 1));
        }
        proof {
            lemma_line_feeds_between(body@, record_start as int, delimiter as int);
        }
        if terminated {
            record_start = delimiter + 1;
            line_number = match line_number.checked_add(1) {
                Some(next) => next,
                None => {
                    proof {
                        lemma_line_feeds_grow(body@, delimiter + 1, available as int);
                    }
                    return None;
                },
            };
        } else {
            record_start = available;
        }
    }
    proof {
        assert(line_feed(body@, available as int) == available);
        assert(occurrences(body@, available as int, line_number as nat) =~= Seq::empty());
        assert(all =~= done);
    }
    Some(
        NormalizedBatch {
            metadata: plan.metadata,
            records: batch.records,
            ignored_records: batch.ignored_records,
        },
    )
}

/// What normalizing a body against definitions gives.
pub open spec fn normalized(metadata: BatchMetadata, body: Seq<u8>, source: Source) -> Result<
    BatchView,
    NormalizationError,
> {
    match plan_of(metadata, source) {
        Err(e) => Err(e),
        Ok(plan) => if lines_overflow(body) {
            Err(NormalizationError::PositionOverflow)
        } else {
            Ok(batch_of(plan, body))
        },
    }
}

/// Normalizes one durably admitted body against the definitions pinned with it. It fails only if
/// those definitions cannot be used, or if the body has more lines than can be numbered. A malformed
/// record becomes a dead letter and does not stop the records behind it.
pub fn normalize_records(metadata: BatchMetadata, body: &[u8], source: &Source) -> (r: Result<
    NormalizedBatch,
    NormalizationError,
>)
    ensures
        match normalized(metadata, body@, *source) {
            Ok(view) => r matches Ok(batch) && batch@ == view,
            Err(e) => r == Err::<NormalizedBatch, NormalizationError>(e),
        },
{
    let plan: NormalizationPlan<'_> = match NormalizationPlan::resolve(metadata, source) {
        Ok(plan) => plan,
        Err(e) => {
            return Err(e);
        },
    };
    match normalize_lines(&plan, body) {
        Some(batch) => Ok(batch),
        None => Err(NormalizationError::PositionOverflow),
    }
}

/// The lines of every body but the very longest can be numbered.
pub proof fn shorter_bodies_can_be_numbered(body: Seq<u8>)
    requires
        body.len() < u64::MAX,
    ensures
        !lines_overflow(body),
{
    lemma_line_feeds_grow(body, 0, body.len() as int);
}

/// Whether normalization fails, and why, is decided by the definitions alone: a body whose lines
/// can be numbered never makes it fail, whatever its bytes are.
pub proof fn failure_does_not_depend_on_the_body(
    metadata: BatchMetadata,
    source: Source,
    body: Seq<u8>,
    other: Seq<u8>,
)
    requires
        !lines_overflow(body),
        !lines_overflow(other),
    ensures
        normalized(metadata, body, source) is Err <==> plan_of(metadata, source) is Err,
        normalized(metadata, body, source) is Err ==> normalized(metadata, other, source)
            == normalized(metadata, body, source),
{
}

/// Each line of a batch is accounted for: it is blank, or it became one record.
pub proof fn every_line_is_accounted_for(plan: PlanView, body: Seq<u8>)
    ensures
        batch_of(plan, body).records.len() + batch_of(plan, body).ignored_records == occurrences(
            body,
            0,
            1,
        ).len(),
{
    lemma_lines_are_counted(plan, body, occurrences(body, 0, 1));
}

proof fn lemma_lines_are_counted(plan: PlanView, body: Seq<u8>, lines: Seq<Occurrence>)
    ensures
        progress_through(plan, body, lines).records.len() + progress_through(
            plan,
            body,
            lines,
        ).ignored == lines.len(),
    decreases lines.len(),
{
    if lines.len() > 0 {
        lemma_lines_are_counted(plan, body, lines.drop_last());
    }
}

proof fn lemma_line_starts(body: Seq<u8>, start: int, line: nat)
    requires
        0 <= start <= body.len(),
    ensures
        forall|i: int|
            0 <= i < occurrences(body, start, line).len() ==> start <= (#[trigger] occurrences(
                body,
                start,
                line,
            )[i]).start < body.len(),
        forall|i: int, j: int|
            0 <= i < j < occurrences(body, start, line).len() ==> (#[trigger] occurrences(
                body,
                start,
                line,
            )[i]).start < (#[trigger] occurrences(body, start, line)[j]).start,
    decreases body.len() - start,
{
    let delimiter = line_feed(body, start);
    if 0 <= start <= delimiter < body.len() {
        lemma_line_starts(body, delimiter + 1, line + 1);
        let all = occurrences(body, start, line);
        let rest = occurrences(body, delimiter + 1, line + 1);
        assert forall|i: int| 0 <= i < all.len() implies start <= (#[trigger] all[i]).start
            < body.len() by {
            if i > 0 {
                assert(all[i] == rest[i - 1]);
            }
        }
        assert forall|i: int, j: int| 0 <= i < j < all.len() implies (#[trigger] all[i]).start < (
        #[trigger] all[j]).start by {
            assert(all[j] == rest[j - 1]);
            if i > 0 {
                assert(all[i] == rest[i - 1]);
            }
        }
    }
}

/// The records of a batch come in the order in which they stand in it, and no two of them start at
/// the same position.
pub proof fn record_positions_increase(plan: PlanView, body: Seq<u8>)
    requires
        body.len() < u64::MAX,
    ensures
        strictly_increasing(record_positions(batch_of(plan, body).records)),
{
    let lines = occurrences(body, 0, 1);
    lemma_line_starts(body, 0, 1);
    lemma_positions_increase(plan, body, lines, lines.len() as int);
    assert(lines.subrange(0, lines.len() as int) =~= lines);
}

proof fn lemma_positions_increase(
    plan: PlanView,
    body: Seq<u8>,
    lines: Seq<Occurrence>,
    count: int,
)
    requires
        body.len() < u64::MAX,
        0 <= count <= lines.len(),
        forall|i: int| 0 <= i < lines.len() ==> 0 <= (#[trigger] lines[i]).start < body.len(),
        forall|i: int, j: int|
            0 <= i < j < lines.len() ==> (#[trigger] lines[i]).start < (#[trigger] lines[j]).start,
    ensures
        ({
            let positions = record_positions(
                progress_through(plan, body, lines.subrange(0, count)).records,
            );
            &&& strictly_increasing(positions)
            &&& forall|i: int, j: int|
                0 <= i < positions.len() && count <= j < lines.len() ==> #[trigger] positions[i]
                    < (#[trigger] lines[j]).start
        }),
    decreases count,
{
    let through = lines.subrange(0, count);
    if count > 0 {
        lemma_positions_increase(plan, body, lines, count - 1);
        assert(through.drop_last() =~= lines.subrange(0, count - 1));
        let line = lines[count - 1];
        assert(through.last() == line);
        let before = progress_through(plan, body, through.drop_last()).records;
        let after = progress_through(plan, body, through).records;
        let earlier = record_positions(before);
        let positions = record_positions(after);
        if after.len() > before.len() {
            assert(after.len() == before.len() + 1);
            assert(after.drop_last() =~= before);
            assert(after.last().location().input_position == line.start);
            assert forall|i: int| 0 <= i < earlier.len() implies positions[i]
                == #[trigger] earlier[i] by {
                assert(after[i] == before[i]);
            }
            assert(positions.last() == line.start);
        } else {
            assert(after =~= before);
        }
        assert forall|i: int, j: int|
            0 <= i < j < positions.len() implies positions[i] < positions[j] by {
            if j < earlier.len() {
                assert(positions[i] == earlier[i] && positions[j] == earlier[j]);
            } else {
                assert(positions[i] == earlier[i]);
                assert(earlier[i] < line.start);
            }
        }
        assert forall|i: int, j: int|
            0 <= i < positions.len() && count <= j < lines.len() implies #[trigger] positions[i]
            < (#[trigger] lines[j]).start by {
            if i < earlier.len() {
                assert(positions[i] == earlier[i]);
            } else {
                assert(positions[i] == line.start);
            }
        }
    }
}

/// The accepted rows of a batch fall on no more than the admitted number of days.
pub proof fn event_days_are_bounded(plan: PlanView, body: Seq<u8>)
    ensures
        ({
            let days = progress_through(plan, body, occurrences(body, 0, 1)).days;
            &&& days.len() <= MAXIMUM_BATCH_EVENT_DAYS
            &&& days.no_duplicates()
            &&& forall|i: int|
                0 <= i < batch_of(plan, body).records.len() ==> ((#[trigger] batch_of(
                    plan,
                    body,
                ).records[i]) matches OutcomeView::Accepted(row) ==> days.contains(
                    utc_day(row.event_time as int),
                ))
        }),
{
    lemma_days_are_bounded(plan, body, occurrences(body, 0, 1));
}

proof fn lemma_days_are_bounded(plan: PlanView, body: Seq<u8>, lines: Seq<Occurrence>)
    ensures
        ({
            let progress = progress_through(plan, body, lines);
            &&& progress.days.len() <= MAXIMUM_BATCH_EVENT_DAYS
            &&& progress.days.no_duplicates()
            &&& forall|i: int|
                0 <= i < progress.records.len() ==> ((
                #[trigger] progress.records[i]) matches OutcomeView::Accepted(row)
                    ==> progress.days.contains(utc_day(row.event_time as int)))
        }),
    decreases lines.len(),
{
    if lines.len() > 0 {
        lemma_days_are_bounded(plan, body, lines.drop_last());
        let before = progress_through(plan, body, lines.drop_last());
        let after = progress_through(plan, body, lines);
        assert forall|i: int| 0 <= i < after.records.len() implies ((
        #[trigger] after.records[i]) matches OutcomeView::Accepted(row) ==> after.days.contains(
            utc_day(row.event_time as int),
        )) by {
            if i < before.records.len() {
                assert(after.records[i] == before.records[i]);
                if let OutcomeView::Accepted(row) = before.records[i] {
                    let day = utc_day(row.event_time as int);
                    let k = choose|k: int| 0 <= k < before.days.len() && before.days[k] == day;
                    assert(before.days[k] == day);
                    assert(after.days[k] == day);
                }
            } else if after.days.len() > before.days.len() {
                assert(after.days[before.days.len() as int] == after.days.last());
            }
        }
    }
}

/// What is kept of a rejected record is no longer than the limit.
pub proof fn kept_payload_is_bounded(record: Seq<u8>)
    ensures
        valid_utf8(record) ==> 0 <= character_boundary(record, kept_bytes(record)) <= kept_bytes(
            record,
        ) <= DEAD_LETTER_PAYLOAD_PREFIX_BYTES,
{
    lemma_boundary_is_bounded(record, kept_bytes(record));
}

proof fn lemma_boundary_is_bounded(record: Seq<u8>, at: int)
    requires
        0 <= at,
    ensures
        0 <= character_boundary(record, at) <= at,
    decreases at,
{
    if at > 0 && !vstd::utf8::is_char_boundary(record, at) {
        lemma_boundary_is_bounded(record, at - 1);
    }
}

} // verus!
