//! The catalog's definitions, as far as ingestion and query analysis read them.

use vstd::prelude::*;

use crate::identity::{FieldId, IngestionProfileRevisionId, InputId, SchemaId, SourceId};

verus! {

/// The type of the values of a field.
#[derive(Clone, Copy, Debug, PartialEq, Eq, Hash, Structural)]
pub enum LogicalType {
    Bool,
    Int32,
    Int64,
    UInt32,
    UInt64,
    Float32,
    Float64,
    Utf8,
    Datetime,
    Eid,
    Json,
}

/// Whether a field may be null.
#[derive(Clone, Copy, Debug, PartialEq, Eq, Hash, Structural)]
pub enum Nullability {
    Nullable,
    NonNull,
}

/// What a field of a stored schema holds.
#[derive(Clone, Copy, Debug, PartialEq, Eq, Hash, Structural)]
pub enum FieldRole {
    EventTime,
    IngestTime,
    EventId,
    Data,
    Remainder,
}

/// A field of a stored schema.
#[derive(Debug)]
pub struct Field {
    pub id: FieldId,
    pub name: String,
    pub logical_type: LogicalType,
    pub nullability: Nullability,
    pub role: FieldRole,
}

/// A stored schema of a source.
#[derive(Debug)]
pub struct Schema {
    pub id: SchemaId,
    pub source_id: SourceId,
    pub fields: Vec<Field>,
}

/// How the event time of a record is written.
#[derive(Clone, Copy, Debug, PartialEq, Eq, Hash, Structural)]
pub enum EventTimeFormat {
    Rfc3339,
    UnixMilliseconds,
}

/// The path of a value in a record, as its reference tokens.
#[derive(Debug)]
pub struct JsonPointer {
    pub tokens: Vec<String>,
}

/// Where a record holds its event time, and how.
#[derive(Debug)]
pub struct EventTimeMapping {
    pub json_pointer: JsonPointer,
    pub format: EventTimeFormat,
}

/// Where a record holds the value of a field.
#[derive(Debug)]
pub struct FieldMapping {
    pub target_field_id: FieldId,
    pub json_pointer: JsonPointer,
}

/// How records become rows.
#[derive(Debug)]
pub struct IngestionProfile {
    pub maximum_record_bytes: u64,
    pub event_time: EventTimeMapping,
    pub mappings: Vec<FieldMapping>,
}

/// One revision of an input's profile.
#[derive(Debug)]
pub struct IngestionProfileRevision {
    pub id: IngestionProfileRevisionId,
    pub target_schema_id: SchemaId,
    pub profile: IngestionProfile,
}

/// An input of a source.
#[derive(Debug)]
pub struct Input {
    pub id: InputId,
    pub profile_revisions: Vec<IngestionProfileRevision>,
}

/// A source with its schemas and its inputs.
#[derive(Debug)]
pub struct Source {
    pub id: SourceId,
    pub name: String,
    pub active_schema_id: SchemaId,
    pub schemas: Vec<Schema>,
    pub inputs: Vec<Input>,
}

/// The place, from `from` on, of the first input with this identity.
pub open spec fn input_place(inputs: Seq<Input>, id: InputId, from: int) -> Option<int>
    decreases inputs.len() - from,
{
    if !(0 <= from < inputs.len()) {
        None
    } else if inputs[from].id == id {
        Some(from)
    } else {
        input_place(inputs, id, from + 1)
    }
}

/// The place, from `from` on, of the first schema with this identity.
pub open spec fn schema_place(schemas: Seq<Schema>, id: SchemaId, from: int) -> Option<int>
    decreases schemas.len() - from,
{
    if !(0 <= from < schemas.len()) {
        None
    } else if schemas[from].id == id {
        Some(from)
    } else {
        schema_place(schemas, id, from + 1)
    }
}

/// The place, from `from` on, of the first revision with this identity.
pub open spec fn revision_place(
    revisions: Seq<IngestionProfileRevision>,
    id: IngestionProfileRevisionId,
    from: int,
) -> Option<int>
    decreases revisions.len() - from,
{
    if !(0 <= from < revisions.len()) {
        None
    } else if revisions[from].id == id {
        Some(from)
    } else {
        revision_place(revisions, id, from + 1)
    }
}

/// The place, from `from` on, of the first mapping to this field.
pub open spec fn mapping_place(mappings: Seq<FieldMapping>, id: FieldId, from: int) -> Option<int>
    decreases mappings.len() - from,
{
    if !(0 <= from < mappings.len()) {
        None
    } else if mappings[from].target_field_id == id {
        Some(from)
    } else {
        mapping_place(mappings, id, from + 1)
    }
}

impl Source {
    /// The input with this identity.
    pub fn input(&self, id: InputId) -> (r: Option<&Input>)
        ensures
            match input_place(self.inputs@, id, 0) {
                Some(place) => r == Some(&self.inputs@[place]),
                None => r is None,
            },
    {
        let mut index: usize = 0;
        while index < self.inputs.len()
            invariant
                index <= self.inputs@.len(),
                input_place(self.inputs@, id, 0) == input_place(self.inputs@, id, index as int),
            decreases self.inputs@.len() - index,
        {
            if self.inputs[index].id == id {
                return Some(&self.inputs[index]);
            }
            index = index + 1;
        }
        None
    }

    /// The schema with this identity.
    pub fn schema(&self, id: SchemaId) -> (r: Option<&Schema>)
        ensures
            match schema_place(self.schemas@, id, 0) {
                Some(place) => r == Some(&self.schemas@[place]),
                None => r is None,
            },
    {
        let mut index: usize = 0;
        while index < self.schemas.len()
            invariant
                index <= self.schemas@.len(),
                schema_place(self.schemas@, id, 0) == schema_place(
                    self.schemas@,
                    id,
                    index as int,
                ),
            decreases self.schemas@.len() - index,
        {
            if self.schemas[index].id == id {
                return Some(&self.schemas[index]);
            }
            index = index + 1;
        }
        None
    }
}

impl Input {
    /// The revision with this identity.
    pub fn profile_revision(&self, id: IngestionProfileRevisionId) -> (r: Option<
        &IngestionProfileRevision,
    >)
        ensures
            match revision_place(self.profile_revisions@, id, 0) {
                Some(place) => r == Some(&self.profile_revisions@[place]),
                None => r is None,
            },
    {
        let mut index: usize = 0;
        while index < self.profile_revisions.len()
            invariant
                index <= self.profile_revisions@.len(),
                revision_place(self.profile_revisions@, id, 0) == revision_place(
                    self.profile_revisions@,
                    id,
                    index as int,
                ),
            decreases self.profile_revisions@.len() - index,
        {
            if self.profile_revisions[index].id == id {
                return Some(&self.profile_revisions[index]);
            }
            index = index + 1;
        }
        None
    }
}

impl IngestionProfile {
    /// Where a record holds the value of a field.
    pub fn pointer_of(&self, id: FieldId) -> (r: Option<&JsonPointer>)
        ensures
            match mapping_place(self.mappings@, id, 0) {
                Some(place) => r == Some(&self.mappings@[place].json_pointer),
                None => r is None,
            },
    {
        let mut index: usize = 0;
        while index < self.mappings.len()
            invariant
                index <= self.mappings@.len(),
                mapping_place(self.mappings@, id, 0) == mapping_place(
                    self.mappings@,
                    id,
                    index as int,
                ),
            decreases self.mappings@.len() - index,
        {
            if self.mappings[index].target_field_id == id {
                return Some(&self.mappings[index].json_pointer);
            }
            index = index + 1;
        }
        None
    }
}

/// What is found under an identity is the first that has it, and nothing is found only where none
/// has it.
pub proof fn the_first_with_an_identity_is_found(
    schemas: Seq<Schema>,
    schema_id: SchemaId,
    inputs: Seq<Input>,
    input_id: InputId,
    mappings: Seq<FieldMapping>,
    field_id: FieldId,
    revisions: Seq<IngestionProfileRevision>,
    revision_id: IngestionProfileRevisionId,
    from: int,
)
    requires
        0 <= from,
    ensures
        match schema_place(schemas, schema_id, from) {
            Some(place) => from <= place < schemas.len() && schemas[place].id == schema_id && forall|
                i: int,
            | from <= i < place ==> (#[trigger] schemas[i]).id != schema_id,
            None => forall|i: int|
                from <= i < schemas.len() ==> (#[trigger] schemas[i]).id != schema_id,
        },
        match input_place(inputs, input_id, from) {
            Some(place) => from <= place < inputs.len() && inputs[place].id == input_id && forall|
                i: int,
            | from <= i < place ==> (#[trigger] inputs[i]).id != input_id,
            None => forall|i: int|
                from <= i < inputs.len() ==> (#[trigger] inputs[i]).id != input_id,
        },
        match mapping_place(mappings, field_id, from) {
            Some(place) => from <= place < mappings.len() && mappings[place].target_field_id
                == field_id && forall|i: int|
                from <= i < place ==> (#[trigger] mappings[i]).target_field_id != field_id,
            None => forall|i: int|
                from <= i < mappings.len() ==> (#[trigger] mappings[i]).target_field_id
                    != field_id,
        },
        match revision_place(revisions, revision_id, from) {
            Some(place) => from <= place < revisions.len() && revisions[place].id == revision_id
                && forall|i: int|
                from <= i < place ==> (#[trigger] revisions[i]).id != revision_id,
            None => forall|i: int|
                from <= i < revisions.len() ==> (#[trigger] revisions[i]).id != revision_id,
        },
    decreases schemas.len() + inputs.len() + mappings.len() + revisions.len() - from,
{
    if from < schemas.len() || from < inputs.len() || from < mappings.len() || from
        < revisions.len() {
        the_first_with_an_identity_is_found(
            schemas,
            schema_id,
            inputs,
            input_id,
            mappings,
            field_id,
            revisions,
            revision_id,
            from + 1,
        );
    }
}

} // verus!
