//! The columns of a sealed segment.

use vstd::prelude::*;
use vstd::utf8::encode_utf8;

use crate::catalog::{
    EventTimeFormat, Field, FieldRole, IngestionProfile, LogicalType, Nullability, Schema,
};
use crate::decimal::{
    decimal_below, float32_is_finite, float64_is_finite, FLOAT32_LIMIT, FLOAT64_LIMIT,
};
use crate::identity::{FieldId, SchemaId, SourceId};
use crate::ingestion::normalization::{
    conversion_to, field_plans_of, field_value_of, field_values_of, row_of, FieldPlanView,
    NormalizationError, PlanView,
};
use crate::ingestion::record::{
    field_views, AcceptedRow, DeadLetterCode, NormalizedField, NormalizedValue, RecordLocation,
    ValueView,
};
use crate::ingestion::segment::{SealedSegment, SegmentRow};
use crate::json::{object_of, store_object, stored_text, Json};
use crate::text::optional_view;

verus! {

/// Why a segment does not fit its stored schema.
#[derive(Clone, Copy, Debug, PartialEq, Eq, Structural)]
pub enum SegmentMaterializationError {
    StoredSchemaSourceMismatch { segment_source_id: SourceId, schema_source_id: SourceId },
    StoredSchemaIdentityMismatch { segment_schema_id: SchemaId, stored_schema_id: SchemaId },
    UnsupportedDataFieldType { field_id: FieldId, logical_type: LogicalType },
    NormalizedFieldCountMismatch { expected_fields: usize, actual_fields: usize },
    NormalizedFieldIdentityMismatch { expected_field_id: FieldId, actual_field_id: FieldId },
    NonNullFieldContainsNull { field_id: FieldId },
    NormalizedFieldTypeMismatch { field_id: FieldId, logical_type: LogicalType },
    NormalizedFloatNotFinite { field_id: FieldId },
}

/// The values of a data field, one for each row. A floating-point value is the decimal numeral
/// from which it is rounded.
#[derive(Debug, PartialEq, Eq)]
pub enum DataColumn {
    Bool(Vec<Option<bool>>),
    Int32(Vec<Option<i32>>),
    Int64(Vec<Option<i64>>),
    UInt32(Vec<Option<u32>>),
    UInt64(Vec<Option<u64>>),
    Float32(Vec<Option<String>>),
    Float64(Vec<Option<String>>),
    Utf8(Vec<Option<String>>),
    Datetime(Vec<Option<i64>>),
}

impl DataColumn {
    /// The type of the column's values.
    pub open spec fn logical_type(self) -> LogicalType {
        match self {
            DataColumn::Bool(_) => LogicalType::Bool,
            DataColumn::Int32(_) => LogicalType::Int32,
            DataColumn::Int64(_) => LogicalType::Int64,
            DataColumn::UInt32(_) => LogicalType::UInt32,
            DataColumn::UInt64(_) => LogicalType::UInt64,
            DataColumn::Float32(_) => LogicalType::Float32,
            DataColumn::Float64(_) => LogicalType::Float64,
            DataColumn::Utf8(_) => LogicalType::Utf8,
            DataColumn::Datetime(_) => LogicalType::Datetime,
        }
    }
}

impl View for DataColumn {
    type V = Seq<ValueView>;

    open spec fn view(&self) -> Seq<ValueView> {
        match self {
            DataColumn::Bool(values) => Seq::new(
                values@.len(),
                |i: int|
                    match values@[i] {
                        Some(value) => ValueView::Bool(value),
                        None => ValueView::Null,
                    },
            ),
            DataColumn::Int32(values) => Seq::new(
                values@.len(),
                |i: int|
                    match values@[i] {
                        Some(value) => ValueView::Int32(value),
                        None => ValueView::Null,
                    },
            ),
            DataColumn::Int64(values) => Seq::new(
                values@.len(),
                |i: int|
                    match values@[i] {
                        Some(value) => ValueView::Int64(value),
                        None => ValueView::Null,
                    },
            ),
            DataColumn::UInt32(values) => Seq::new(
                values@.len(),
                |i: int|
                    match values@[i] {
                        Some(value) => ValueView::UInt32(value),
                        None => ValueView::Null,
                    },
            ),
            DataColumn::UInt64(values) => Seq::new(
                values@.len(),
                |i: int|
                    match values@[i] {
                        Some(value) => ValueView::UInt64(value),
                        None => ValueView::Null,
                    },
            ),
            DataColumn::Float32(values) => Seq::new(
                values@.len(),
                |i: int|
                    match values@[i] {
                        Some(text) => ValueView::Float32(text@),
                        None => ValueView::Null,
                    },
            ),
            DataColumn::Float64(values) => Seq::new(
                values@.len(),
                |i: int|
                    match values@[i] {
                        Some(text) => ValueView::Float64(text@),
                        None => ValueView::Null,
                    },
            ),
            DataColumn::Utf8(values) => Seq::new(
                values@.len(),
                |i: int|
                    match values@[i] {
                        Some(text) => ValueView::Utf8(text@),
                        None => ValueView::Null,
                    },
            ),
            DataColumn::Datetime(values) => Seq::new(
                values@.len(),
                |i: int|
                    match values@[i] {
                        Some(value) => ValueView::Datetime(value),
                        None => ValueView::Null,
                    },
            ),
        }
    }
}

/// Whether a data field may have this type.
pub open spec fn is_column_type(logical_type: LogicalType) -> bool {
    logical_type != LogicalType::Eid && logical_type != LogicalType::Json
}

/// The type that a value has, unless it is null.
pub open spec fn value_type(value: ValueView) -> Option<LogicalType> {
    match value {
        ValueView::Null => None,
        ValueView::Bool(_) => Some(LogicalType::Bool),
        ValueView::Int32(_) => Some(LogicalType::Int32),
        ValueView::Int64(_) => Some(LogicalType::Int64),
        ValueView::UInt32(_) => Some(LogicalType::UInt32),
        ValueView::UInt64(_) => Some(LogicalType::UInt64),
        ValueView::Float32(_) => Some(LogicalType::Float32),
        ValueView::Float64(_) => Some(LogicalType::Float64),
        ValueView::Utf8(_) => Some(LogicalType::Utf8),
        ValueView::Datetime(_) => Some(LogicalType::Datetime),
    }
}

/// Whether a floating-point value overflows its type.
pub open spec fn overflows(value: ValueView) -> bool {
    match value {
        ValueView::Float32(text) => !decimal_below(encode_utf8(text), FLOAT32_LIMIT@),
        ValueView::Float64(text) => !decimal_below(encode_utf8(text), FLOAT64_LIMIT@),
        _ => false,
    }
}

/// Why a value cannot stand in a field's column.
pub open spec fn value_fault(field: Field, value: ValueView) -> Option<
    SegmentMaterializationError,
> {
    if value is Null {
        if field.nullability == Nullability::NonNull {
            Some(SegmentMaterializationError::NonNullFieldContainsNull { field_id: field.id })
        } else {
            None
        }
    } else if value_type(value) != Some(field.logical_type) {
        Some(
            SegmentMaterializationError::NormalizedFieldTypeMismatch {
                field_id: field.id,
                logical_type: field.logical_type,
            },
        )
    } else if overflows(value) {
        Some(SegmentMaterializationError::NormalizedFloatNotFinite { field_id: field.id })
    } else {
        None
    }
}

/// Why a field of a row cannot stand in a field's column.
pub open spec fn cell_fault(field: Field, cell: (FieldId, ValueView)) -> Option<
    SegmentMaterializationError,
> {
    if cell.0 != field.id {
        Some(
            SegmentMaterializationError::NormalizedFieldIdentityMismatch {
                expected_field_id: field.id,
                actual_field_id: cell.0,
            },
        )
    } else {
        value_fault(field, cell.1)
    }
}

/// Why the first `count` fields of a row do not fit.
pub open spec fn cells_fault(
    fields: Seq<Field>,
    cells: Seq<(FieldId, ValueView)>,
    count: int,
) -> Option<SegmentMaterializationError>
    decreases count,
{
    if count <= 0 {
        None
    } else {
        match cells_fault(fields, cells, count - 1) {
            Some(e) => Some(e),
            None => cell_fault(fields[count - 1], cells[count - 1]),
        }
    }
}

/// Why a row does not fit.
pub open spec fn row_fault(fields: Seq<Field>, cells: Seq<(FieldId, ValueView)>) -> Option<
    SegmentMaterializationError,
> {
    if cells.len() != fields.len() {
        Some(
            SegmentMaterializationError::NormalizedFieldCountMismatch {
                expected_fields: fields.len() as usize,
                actual_fields: cells.len() as usize,
            },
        )
    } else {
        cells_fault(fields, cells, fields.len() as int)
    }
}

/// The fields of a row.
pub open spec fn row_cells(row: SegmentRow) -> Seq<(FieldId, ValueView)> {
    field_views(row.row.fields@)
}

/// Why the first `count` rows do not fit.
pub open spec fn rows_fault(fields: Seq<Field>, rows: Seq<SegmentRow>, count: int) -> Option<
    SegmentMaterializationError,
>
    decreases count,
{
    if count <= 0 {
        None
    } else {
        match rows_fault(fields, rows, count - 1) {
            Some(e) => Some(e),
            None => row_fault(fields, row_cells(rows[count - 1])),
        }
    }
}

/// The data fields among fields.
pub open spec fn data_fields_of(fields: Seq<Field>) -> Seq<Field>
    decreases fields.len(),
{
    if fields.len() == 0 {
        Seq::empty()
    } else if fields.last().role == FieldRole::Data {
        data_fields_of(fields.drop_last()).push(fields.last())
    } else {
        data_fields_of(fields.drop_last())
    }
}

/// Why the first `count` data fields have no column.
pub open spec fn type_fault(fields: Seq<Field>, count: int) -> Option<SegmentMaterializationError>
    decreases count,
{
    if count <= 0 {
        None
    } else {
        match type_fault(fields, count - 1) {
            Some(e) => Some(e),
            None => if is_column_type(fields[count - 1].logical_type) {
                None
            } else {
                Some(
                    SegmentMaterializationError::UnsupportedDataFieldType {
                        field_id: fields[count - 1].id,
                        logical_type: fields[count - 1].logical_type,
                    },
                )
            },
        }
    }
}

/// Why a segment cannot be materialized under a schema.
pub open spec fn segment_fault(segment: SealedSegment, schema: Schema) -> Option<
    SegmentMaterializationError,
> {
    let fields = data_fields_of(schema.fields@);
    if segment.key.source_id != schema.source_id {
        Some(
            SegmentMaterializationError::StoredSchemaSourceMismatch {
                segment_source_id: segment.key.source_id,
                schema_source_id: schema.source_id,
            },
        )
    } else if segment.key.schema_id != schema.id {
        Some(
            SegmentMaterializationError::StoredSchemaIdentityMismatch {
                segment_schema_id: segment.key.schema_id,
                stored_schema_id: schema.id,
            },
        )
    } else {
        match type_fault(fields, fields.len() as int) {
            Some(e) => Some(e),
            None => rows_fault(fields, segment.rows@, segment.rows@.len() as int),
        }
    }
}

/// The columns of a segment. A remainder is the text of its object as it is stored.
#[derive(Debug)]
pub struct SegmentColumns {
    pub event_times: Vec<i64>,
    pub ingestion_times: Vec<i64>,
    pub event_ids: Vec<[u8; 16]>,
    pub data: Vec<DataColumn>,
    pub remainders: Vec<Option<String>>,
}

/// The text in which the remainder of a row is stored.
pub open spec fn remainder_text(row: AcceptedRow) -> Option<Seq<char>> {
    match row.remainder {
        Some(object) => Some(stored_text(object@)),
        None => None,
    }
}

/// The values of one field in the first `count` rows.
pub open spec fn column_values(rows: Seq<SegmentRow>, place: int, count: int) -> Seq<ValueView> {
    Seq::new(count as nat, |i: int| row_cells(rows[i])[place].1)
}

impl SegmentColumns {
    /// Whether these are the columns of rows under data fields.
    pub open spec fn hold(self, rows: Seq<SegmentRow>, fields: Seq<Field>) -> bool {
        &&& self.event_times@.len() == rows.len()
        &&& self.ingestion_times@.len() == rows.len()
        &&& self.event_ids@.len() == rows.len()
        &&& self.data@.len() == fields.len()
        &&& self.remainders@.len() == rows.len()
        &&& forall|i: int|
            0 <= i < rows.len() ==> {
                let row = (#[trigger] rows[i]).row;
                &&& self.event_times@[i] == row.event_time.spec_milliseconds()
                &&& self.ingestion_times@[i] == row.ingestion_time.spec_milliseconds()
                &&& self.event_ids@[i] == row.event_id.bytes
                &&& optional_view(self.remainders@[i]) == remainder_text(row)
            }
        &&& forall|i: int|
            0 <= i < fields.len() ==> (#[trigger] self.data@[i])@ == column_values(
                rows,
                i,
                rows.len() as int,
            ) && self.data@[i].logical_type() == fields[i].logical_type
    }
}

impl DataColumn {
    /// An empty column for a field.
    fn new(field: &Field) -> (r: Result<Self, SegmentMaterializationError>)
        ensures
            match r {
                Ok(column) => is_column_type(field.logical_type) && column.logical_type()
                    == field.logical_type && column@ == Seq::<ValueView>::empty(),
                Err(e) => !is_column_type(field.logical_type) && e
                    == (SegmentMaterializationError::UnsupportedDataFieldType {
                    field_id: field.id,
                    logical_type: field.logical_type,
                }),
            },
    {
        let column: DataColumn = match field.logical_type {
            LogicalType::Bool => DataColumn::Bool(Vec::new()),
            LogicalType::Int32 => DataColumn::Int32(Vec::new()),
            LogicalType::Int64 => DataColumn::Int64(Vec::new()),
            LogicalType::UInt32 => DataColumn::UInt32(Vec::new()),
            LogicalType::UInt64 => DataColumn::UInt64(Vec::new()),
            LogicalType::Float32 => DataColumn::Float32(Vec::new()),
            LogicalType::Float64 => DataColumn::Float64(Vec::new()),
            LogicalType::Utf8 => DataColumn::Utf8(Vec::new()),
            LogicalType::Datetime => DataColumn::Datetime(Vec::new()),
            LogicalType::Eid | LogicalType::Json => {
                return Err(
                    SegmentMaterializationError::UnsupportedDataFieldType {
                        field_id: field.id,
                        logical_type: field.logical_type,
                    },
                );
            },
        };
        assert(column@ =~= Seq::<ValueView>::empty());
        Ok(column)
    }

    pub(crate) fn append_null(&mut self)
        ensures
            final(self)@ == old(self)@.push(ValueView::Null),
            final(self).logical_type() == old(self).logical_type(),
    {
        let ghost before = self@;
        match self {
            DataColumn::Bool(values) => values.push(None),
            DataColumn::Int32(values) => values.push(None),
            DataColumn::Int64(values) => values.push(None),
            DataColumn::UInt32(values) => values.push(None),
            DataColumn::UInt64(values) => values.push(None),
            DataColumn::Float32(values) => values.push(None),
            DataColumn::Float64(values) => values.push(None),
            DataColumn::Utf8(values) => values.push(None),
            DataColumn::Datetime(values) => values.push(None),
        }
        assert(self@ =~= before.push(ValueView::Null));
    }

    /// Appends a value of the column's type.
    pub(crate) fn append_value(&mut self, value: &NormalizedValue)
        requires
            value_type(value@) == Some(old(self).logical_type()),
        ensures
            final(self)@ == old(self)@.push(value@),
            final(self).logical_type() == old(self).logical_type(),
    {
        let ghost before = self@;
        match self {
            DataColumn::Bool(values) => {
                if let NormalizedValue::Bool(value) = value {
                    values.push(Some(*value));
                }
            },
            DataColumn::Int32(values) => {
                if let NormalizedValue::Int32(value) = value {
                    values.push(Some(*value));
                }
            },
            DataColumn::Int64(values) => {
                if let NormalizedValue::Int64(value) = value {
                    values.push(Some(*value));
                }
            },
            DataColumn::UInt32(values) => {
                if let NormalizedValue::UInt32(value) = value {
                    values.push(Some(*value));
                }
            },
            DataColumn::UInt64(values) => {
                if let NormalizedValue::UInt64(value) = value {
                    values.push(Some(*value));
                }
            },
            DataColumn::Float32(values) => {
                if let NormalizedValue::Float32(value) = value {
                    values.push(Some(value.clone()));
                }
            },
            DataColumn::Float64(values) => {
                if let NormalizedValue::Float64(value) = value {
                    values.push(Some(value.clone()));
                }
            },
            DataColumn::Utf8(values) => {
                if let NormalizedValue::Utf8(value) = value {
                    values.push(Some(value.clone()));
                }
            },
            DataColumn::Datetime(values) => {
                if let NormalizedValue::Datetime(value) = value {
                    values.push(Some(*value));
                }
            },
        }
        assert(self@ =~= before.push(value@));
    }

    /// Appends a value, or says why it cannot stand in the column.
    fn append(&mut self, field: &Field, value: &NormalizedValue) -> (r: Result<
        (),
        SegmentMaterializationError,
    >)
        requires
            old(self).logical_type() == field.logical_type,
        ensures
            final(self).logical_type() == old(self).logical_type(),
            match r {
                Ok(_) => value_fault(*field, value@) is None && final(self)@ == old(self)@.push(
                    value@,
                ),
                Err(e) => value_fault(*field, value@) == Some(e) && final(self)@ == old(self)@,
            },
    {
        let value_type: LogicalType = match value {
            NormalizedValue::Null => {
                if field.nullability == Nullability::NonNull {
                    return Err(
                        SegmentMaterializationError::NonNullFieldContainsNull {
                            field_id: field.id,
                        },
                    );
                }
                self.append_null();
                return Ok(());
            },
            NormalizedValue::Bool(_) => LogicalType::Bool,
            NormalizedValue::Int32(_) => LogicalType::Int32,
            NormalizedValue::Int64(_) => LogicalType::Int64,
            NormalizedValue::UInt32(_) => LogicalType::UInt32,
            NormalizedValue::UInt64(_) => LogicalType::UInt64,
            NormalizedValue::Float32(_) => LogicalType::Float32,
            NormalizedValue::Float64(_) => LogicalType::Float64,
            NormalizedValue::Utf8(_) => LogicalType::Utf8,
            NormalizedValue::Datetime(_) => LogicalType::Datetime,
        };
        if value_type != field.logical_type {
            return Err(
                SegmentMaterializationError::NormalizedFieldTypeMismatch {
                    field_id: field.id,
                    logical_type: field.logical_type,
                },
            );
        }
        let finite: bool = match value {
            NormalizedValue::Float32(text) => float32_is_finite(text.as_str().as_bytes()),
            NormalizedValue::Float64(text) => float64_is_finite(text.as_str().as_bytes()),
            _ => true,
        };
        if !finite {
            return Err(
                SegmentMaterializationError::NormalizedFloatNotFinite { field_id: field.id },
            );
        }
        self.append_value(value);
        Ok(())
    }
}

fn data_fields<'a>(schema: &'a Schema) -> (r: Vec<&'a Field>)
    ensures
        r@.len() == data_fields_of(schema.fields@).len(),
        forall|i: int| 0 <= i < r@.len() ==> *(#[trigger] r@[i]) == data_fields_of(schema.fields@)[i],
{
    let ghost all = schema.fields@;
    let mut fields: Vec<&'a Field> = Vec::new();
    let mut index: usize = 0;
    assert(all.subrange(0, 0) =~= Seq::empty());
    while index < schema.fields.len()
        invariant
            index <= all.len(),
            all == schema.fields@,
            fields@.len() == data_fields_of(all.subrange(0, index as int)).len(),
            forall|i: int|
                0 <= i < fields@.len() ==> *(#[trigger] fields@[i]) == data_fields_of(
                    all.subrange(0, index as int),
                )[i],
        decreases all.len() - index,
    {
        let ghost through = all.subrange(0, index + 1);
        assert(through.drop_last() =~= all.subrange(0, index as int));
        assert(through.last() == all[index as int]);
        if schema.fields[index].role == FieldRole::Data {
            fields.push(&schema.fields[index]);
        }
        index = index + 1;
    }
    assert(all.subrange(0, all.len() as int) =~= all);
    fields
}

fn validate_stored_schema(segment: &SealedSegment, stored_schema: &Schema) -> (r: Result<
    (),
    SegmentMaterializationError,
>)
    ensures
        match r {
            Ok(_) => segment.key.source_id == stored_schema.source_id && segment.key.schema_id
                == stored_schema.id,
            Err(e) => segment_fault(*segment, *stored_schema) == Some(e),
        },
{
    if segment.source_id() != stored_schema.source_id {
        return Err(
            SegmentMaterializationError::StoredSchemaSourceMismatch {
                segment_source_id: segment.source_id(),
                schema_source_id: stored_schema.source_id,
            },
        );
    }
    if segment.schema_id() != stored_schema.id {
        return Err(
            SegmentMaterializationError::StoredSchemaIdentityMismatch {
                segment_schema_id: segment.schema_id(),
                stored_schema_id: stored_schema.id,
            },
        );
    }
    Ok(())
}

proof fn lemma_type_fault_persists(fields: Seq<Field>, from: int, count: int)
    requires
        from <= count,
        type_fault(fields, from) is Some,
    ensures
        type_fault(fields, count) == type_fault(fields, from),
    decreases count - from,
{
    if from < count {
        lemma_type_fault_persists(fields, from, count - 1);
    }
}

proof fn lemma_cells_fault_persists(
    fields: Seq<Field>,
    cells: Seq<(FieldId, ValueView)>,
    from: int,
    count: int,
)
    requires
        from <= count,
        cells_fault(fields, cells, from) is Some,
    ensures
        cells_fault(fields, cells, count) == cells_fault(fields, cells, from),
    decreases count - from,
{
    if from < count {
        lemma_cells_fault_persists(fields, cells, from, count - 1);
    }
}

proof fn lemma_rows_fault_persists(
    fields: Seq<Field>,
    rows: Seq<SegmentRow>,
    from: int,
    count: int,
)
    requires
        from <= count,
        rows_fault(fields, rows, from) is Some,
    ensures
        rows_fault(fields, rows, count) == rows_fault(fields, rows, from),
    decreases count - from,
{
    if from < count {
        lemma_rows_fault_persists(fields, rows, from, count - 1);
    }
}

fn new_columns(fields: &Vec<&Field>, Ghost(all): Ghost<Seq<Field>>) -> (r: Result<
    Vec<DataColumn>,
    SegmentMaterializationError,
>)
    requires
        fields@.len() == all.len(),
        forall|i: int| 0 <= i < all.len() ==> *(#[trigger] fields@[i]) == all[i],
    ensures
        match r {
            Ok(columns) => {
                &&& type_fault(all, all.len() as int) is None
                &&& columns@.len() == all.len()
                &&& forall|i: int|
                    0 <= i < all.len() ==> (#[trigger] columns@[i])@ == Seq::<ValueView>::empty()
                        && columns@[i].logical_type() == all[i].logical_type
            },
            Err(e) => type_fault(all, all.len() as int) == Some(e),
        },
{
    let mut columns: Vec<DataColumn> = Vec::new();
    let mut index: usize = 0;
    while index < fields.len()
        invariant
            index <= all.len(),
            fields@.len() == all.len(),
            forall|i: int| 0 <= i < all.len() ==> *(#[trigger] fields@[i]) == all[i],
            columns@.len() == index,
            type_fault(all, index as int) is None,
            forall|i: int|
                0 <= i < index ==> (#[trigger] columns@[i])@ == Seq::<ValueView>::empty()
                    && columns@[i].logical_type() == all[i].logical_type,
        decreases all.len() - index,
    {
        assert(*fields@[index as int] == all[index as int]);
        match DataColumn::new(fields[index]) {
            Ok(column) => {
                columns.push(column);
            },
            Err(e) => {
                proof {
                    lemma_type_fault_persists(all, index + 1, all.len() as int);
                }
                return Err(e);
            },
        }
        index = index + 1;
    }
    Ok(columns)
}

/// Appends the fields of one row to the columns.
fn append_row(
    columns: &mut Vec<DataColumn>,
    fields: &Vec<&Field>,
    row: &SegmentRow,
    Ghost(all): Ghost<Seq<Field>>,
) -> (r: Result<(), SegmentMaterializationError>)
    requires
        fields@.len() == all.len(),
        forall|i: int| 0 <= i < all.len() ==> *(#[trigger] fields@[i]) == all[i],
        old(columns)@.len() == all.len(),
        forall|i: int|
            0 <= i < all.len() ==> (#[trigger] old(columns)@[i]).logical_type()
                == all[i].logical_type,
    ensures
        match r {
            Ok(_) => {
                &&& row_fault(all, row_cells(*row)) is None
                &&& final(columns)@.len() == all.len()
                &&& forall|i: int|
                    0 <= i < all.len() ==> (#[trigger] final(columns)@[i])@ == old(
                        columns)@[i]@.push(row_cells(*row)[i].1) && final(
                        columns)@[i].logical_type() == all[i].logical_type
            },
            Err(e) => row_fault(all, row_cells(*row)) == Some(e),
        },
{
    let ghost cells = row_cells(*row);
    let ghost before = columns@;
    let normalized: &Vec<NormalizedField> = row.row.fields();
    if normalized.len() != fields.len() {
        return Err(
            SegmentMaterializationError::NormalizedFieldCountMismatch {
                expected_fields: fields.len(),
                actual_fields: normalized.len(),
            },
        );
    }
    let mut index: usize = 0;
    while index < fields.len()
        invariant
            index <= all.len(),
            fields@.len() == all.len(),
            normalized@.len() == all.len(),
            cells == field_views(normalized@),
            cells == row_cells(*row),
            forall|i: int| 0 <= i < all.len() ==> *(#[trigger] fields@[i]) == all[i],
            columns@.len() == all.len(),
            before.len() == all.len(),
            forall|i: int|
                0 <= i < all.len() ==> (#[trigger] before[i]).logical_type()
                    == all[i].logical_type,
            cells_fault(all, cells, index as int) is None,
            forall|i: int|
                0 <= i < index ==> (#[trigger] columns@[i])@ == before[i]@.push(cells[i].1)
                    && columns@[i].logical_type() == all[i].logical_type,
            forall|i: int| index <= i < all.len() ==> #[trigger] columns@[i] == before[i],
        decreases all.len() - index,
    {
        let field: &Field = fields[index];
        assert(*field == all[index as int]);
        let cell: &NormalizedField = &normalized[index];
        assert(cells[index as int] == (cell.field_id, cell.value@));
        if cell.field_id() != field.id {
            proof {
                lemma_cells_fault_persists(all, cells, index + 1, all.len() as int);
            }
            return Err(
                SegmentMaterializationError::NormalizedFieldIdentityMismatch {
                    expected_field_id: field.id,
                    actual_field_id: cell.field_id(),
                },
            );
        }
        assert(columns@[index as int] == before[index as int]);
        let ghost held = columns@;
        let column: &mut DataColumn = &mut columns[index];
        let appended: Result<(), SegmentMaterializationError> = column.append(field, cell.value());
        match appended {
            Ok(_) => {},
            Err(e) => {
                proof {
                    lemma_cells_fault_persists(all, cells, index + 1, all.len() as int);
                }
                return Err(e);
            },
        }
        proof {
            assert forall|i: int| 0 <= i < index implies #[trigger] columns@[i] == held[i] by {}
            assert forall|i: int| index < i < all.len() implies #[trigger] columns@[i]
                == before[i] by {
                assert(columns@[i] == held[i]);
            }
        }
        index = index + 1;
    }
    Ok(())
}

/// Lays out the rows of a sealed segment in columns, or says why they do not fit the schema.
pub fn materialize_segment_columns(segment: &SealedSegment, stored_schema: &Schema) -> (r: Result<
    SegmentColumns,
    SegmentMaterializationError,
>)
    ensures
        match r {
            Ok(columns) => segment_fault(*segment, *stored_schema) is None && columns.hold(
                segment.rows@,
                data_fields_of(stored_schema.fields@),
            ),
            Err(e) => segment_fault(*segment, *stored_schema) == Some(e),
        },
{
    match validate_stored_schema(segment, stored_schema) {
        Ok(_) => {},
        Err(e) => {
            return Err(e);
        },
    }
    let ghost all = data_fields_of(stored_schema.fields@);
    let ghost rows = segment.rows@;
    let fields: Vec<&Field> = data_fields(stored_schema);
    let mut data: Vec<DataColumn> = match new_columns(&fields, Ghost(all)) {
        Ok(columns) => columns,
        Err(e) => {
            return Err(e);
        },
    };
    let mut event_times: Vec<i64> = Vec::new();
    let mut ingestion_times: Vec<i64> = Vec::new();
    let mut event_ids: Vec<[u8; 16]> = Vec::new();
    let mut remainders: Vec<Option<String>> = Vec::new();
    let mut index: usize = 0;
    proof {
        assert forall|i: int| 0 <= i < all.len() implies (#[trigger] data@[i])@ == column_values(
            rows,
            i,
            0,
        ) by {
            assert(column_values(rows, i, 0) =~= Seq::empty());
        }
    }
    while index < segment.rows.len()
        invariant
            index <= rows.len(),
            rows == segment.rows@,
            fields@.len() == all.len(),
            forall|i: int| 0 <= i < all.len() ==> *(#[trigger] fields@[i]) == all[i],
            rows_fault(all, rows, index as int) is None,
            event_times@.len() == index,
            ingestion_times@.len() == index,
            event_ids@.len() == index,
            remainders@.len() == index,
            data@.len() == all.len(),
            all == data_fields_of(stored_schema.fields@),
            segment.key.source_id == stored_schema.source_id,
            segment.key.schema_id == stored_schema.id,
            type_fault(all, all.len() as int) is None,
            forall|i: int|
                0 <= i < index ==> {
                    let row = (#[trigger] rows[i]).row;
                    &&& event_times@[i] == row.event_time.spec_milliseconds()
                    &&& ingestion_times@[i] == row.ingestion_time.spec_milliseconds()
                    &&& event_ids@[i] == row.event_id.bytes
                    &&& optional_view(remainders@[i]) == remainder_text(row)
                },
            forall|i: int|
                0 <= i < all.len() ==> (#[trigger] data@[i])@ == column_values(
                    rows,
                    i,
                    index as int,
                ) && data@[i].logical_type() == all[i].logical_type,
        decreases rows.len() - index,
    {
        let segment_row: &SegmentRow = &segment.rows[index];
        let ghost before = data@;
        event_times.push(segment_row.row.event_time().unix_milliseconds());
        ingestion_times.push(segment_row.row.ingestion_time().unix_milliseconds());
        event_ids.push(*segment_row.row.event_id.as_bytes());
        match append_row(&mut data, &fields, segment_row, Ghost(all)) {
            Ok(_) => {},
            Err(e) => {
                proof {
                    lemma_rows_fault_persists(all, rows, index + 1, rows.len() as int);
                }
                return Err(e);
            },
        }
        remainders.push(
            match &segment_row.row.remainder {
                Some(object) => Some(store_object(object)),
                None => None,
            },
        );
        proof {
            assert forall|i: int| 0 <= i < all.len() implies (
            #[trigger] data@[i])@ == column_values(rows, i, index + 1) && data@[i].logical_type()
                == all[i].logical_type by {
                assert(before[i]@ == column_values(rows, i, index as int));
                assert(column_values(rows, i, index + 1) =~= column_values(
                    rows,
                    i,
                    index as int,
                ).push(row_cells(rows[index as int])[i].1));
            }
        }
        index = index + 1;
    }
    Ok(SegmentColumns { event_times, ingestion_times, event_ids, data, remainders })
}

proof fn lemma_plans_follow_fields(fields: Seq<Field>, profile: IngestionProfile)
    requires
        field_plans_of(fields, profile) is Ok,
    ensures
        ({
            let plans = field_plans_of(fields, profile)->Ok_0;
            let data = data_fields_of(fields);
            &&& plans.len() == data.len()
            &&& forall|i: int|
                0 <= i < plans.len() ==> (#[trigger] plans[i]).field_id == data[i].id
                    && plans[i].nullability == data[i].nullability && conversion_to(
                    data[i].logical_type,
                ) == Some(plans[i].conversion)
        }),
    decreases fields.len(),
{
    if fields.len() > 0 {
        lemma_plans_follow_fields(fields.drop_last(), profile);
    }
}

proof fn lemma_values_follow_plans(
    root: Json,
    plans: Seq<FieldPlanView>,
    format: EventTimeFormat,
)
    requires
        field_values_of(root, plans, format) is Ok,
    ensures
        ({
            let values = field_values_of(root, plans, format)->Ok_0;
            &&& values.len() == plans.len()
            &&& forall|i: int|
                0 <= i < plans.len() ==> (#[trigger] values[i]).0 == plans[i].field_id
                    && field_value_of(root, plans[i], format) == Ok::<ValueView, DeadLetterCode>(
                    values[i].1,
                )
        }),
    decreases plans.len(),
{
    if plans.len() > 0 {
        lemma_values_follow_plans(root, plans.drop_last(), format);
    }
}

proof fn lemma_no_cell_fault(fields: Seq<Field>, cells: Seq<(FieldId, ValueView)>, count: int)
    requires
        0 <= count <= fields.len(),
        fields.len() == cells.len(),
        forall|i: int|
            0 <= i < fields.len() ==> cell_fault(#[trigger] fields[i], cells[i]) is None,
    ensures
        cells_fault(fields, cells, count) is None,
    decreases count,
{
    if count > 0 {
        lemma_no_cell_fault(fields, cells, count - 1);
        assert(cell_fault(fields[count - 1], cells[count - 1]) is None);
    }
}

/// A row that normalization made for a schema fits that schema's columns.
pub proof fn normalized_rows_fit_their_schema(
    fields: Seq<Field>,
    plan: PlanView,
    record: Seq<u8>,
    location: RecordLocation,
)
    requires
        field_plans_of(fields, plan.profile) == Ok::<Seq<FieldPlanView>, NormalizationError>(
            plan.fields,
        ),
        row_of(plan, record, location) is Ok,
    ensures
        row_fault(data_fields_of(fields), row_of(plan, record, location)->Ok_0.fields) is None,
{
    let root = Json::Object(object_of(record)->0);
    let format = plan.profile.event_time.format;
    let cells = row_of(plan, record, location)->Ok_0.fields;
    let data = data_fields_of(fields);
    lemma_plans_follow_fields(fields, plan.profile);
    lemma_values_follow_plans(root, plan.fields, format);
    assert forall|i: int| 0 <= i < data.len() implies cell_fault(
        #[trigger] data[i],
        cells[i],
    ) is None by {
        assert(cells[i].0 == plan.fields[i].field_id);
        assert(plan.fields[i].field_id == data[i].id);
    }
    lemma_no_cell_fault(data, cells, data.len() as int);
}

/// Whether a value may stand in the column of a field: it is null and the field may be, or it is of
/// the type of the field and, if it is a fraction, finite.
pub open spec fn suits(field: Field, value: ValueView) -> bool {
    match value {
        ValueView::Null => field.nullability == Nullability::Nullable,
        ValueView::Bool(_) => field.logical_type == LogicalType::Bool,
        ValueView::Int32(_) => field.logical_type == LogicalType::Int32,
        ValueView::Int64(_) => field.logical_type == LogicalType::Int64,
        ValueView::UInt32(_) => field.logical_type == LogicalType::UInt32,
        ValueView::UInt64(_) => field.logical_type == LogicalType::UInt64,
        ValueView::Float32(text) => field.logical_type == LogicalType::Float32 && decimal_below(
            encode_utf8(text),
            FLOAT32_LIMIT@,
        ),
        ValueView::Float64(text) => field.logical_type == LogicalType::Float64 && decimal_below(
            encode_utf8(text),
            FLOAT64_LIMIT@,
        ),
        ValueView::Utf8(_) => field.logical_type == LogicalType::Utf8,
        ValueView::Datetime(_) => field.logical_type == LogicalType::Datetime,
    }
}

/// Whether a row has one cell for each field, under its identity and with a value that suits it.
pub open spec fn row_suits(fields: Seq<Field>, cells: Seq<(FieldId, ValueView)>) -> bool {
    &&& cells.len() == fields.len()
    &&& forall|i: int|
        0 <= i < fields.len() ==> cells[i].0 == (#[trigger] fields[i]).id && suits(
            fields[i],
            cells[i].1,
        )
}

proof fn lemma_cells_suit(fields: Seq<Field>, cells: Seq<(FieldId, ValueView)>, count: int)
    requires
        0 <= count <= fields.len(),
        cells.len() == fields.len(),
    ensures
        cells_fault(fields, cells, count) is None <==> forall|i: int|
            0 <= i < count ==> cells[i].0 == (#[trigger] fields[i]).id && suits(
                fields[i],
                cells[i].1,
            ),
    decreases count,
{
    if count > 0 {
        lemma_cells_suit(fields, cells, count - 1);
        let field = fields[count - 1];
        assert(cell_fault(field, cells[count - 1]) is None <==> cells[count - 1].0 == field.id
            && suits(field, cells[count - 1].1));
    }
}

proof fn lemma_rows_suit(fields: Seq<Field>, rows: Seq<SegmentRow>, count: int)
    requires
        0 <= count <= rows.len(),
    ensures
        rows_fault(fields, rows, count) is None <==> forall|i: int|
            0 <= i < count ==> row_suits(fields, row_cells(#[trigger] rows[i])),
    decreases count,
{
    if count > 0 {
        lemma_rows_suit(fields, rows, count - 1);
        let cells = row_cells(rows[count - 1]);
        if cells.len() == fields.len() {
            lemma_cells_suit(fields, cells, fields.len() as int);
        }
        assert(row_fault(fields, cells) is None <==> row_suits(fields, cells));
    }
}

proof fn lemma_types_have_columns(fields: Seq<Field>, count: int)
    requires
        0 <= count <= fields.len(),
    ensures
        type_fault(fields, count) is None <==> forall|i: int|
            0 <= i < count ==> (#[trigger] fields[i]).logical_type != LogicalType::Eid
                && fields[i].logical_type != LogicalType::Json,
    decreases count,
{
    if count > 0 {
        lemma_types_have_columns(fields, count - 1);
    }
}

proof fn lemma_data_fields(fields: Seq<Field>)
    ensures
        data_fields_of(fields) == fields.filter(|field: Field| field.role == FieldRole::Data),
    decreases fields.len(),
{
    reveal(Seq::filter);
    if fields.len() > 0 {
        lemma_data_fields(fields.drop_last());
    }
}

/// A segment is materialized exactly if the schema is its own, each data field of the schema has a
/// type that a column can have, and each row has a suitable value for each of them.
pub proof fn suitable_segments_are_materialized(segment: SealedSegment, schema: Schema)
    ensures
        ({
            let fields = schema.fields@.filter(|field: Field| field.role == FieldRole::Data);
            segment_fault(segment, schema) is None <==> {
                &&& segment.key.source_id == schema.source_id
                &&& segment.key.schema_id == schema.id
                &&& forall|i: int|
                    0 <= i < fields.len() ==> (#[trigger] fields[i]).logical_type
                        != LogicalType::Eid && fields[i].logical_type != LogicalType::Json
                &&& forall|i: int|
                    0 <= i < segment.rows@.len() ==> row_suits(
                        fields,
                        row_cells(#[trigger] segment.rows@[i]),
                    )
            }
        }),
{
    let fields = data_fields_of(schema.fields@);
    lemma_data_fields(schema.fields@);
    lemma_types_have_columns(fields, fields.len() as int);
    lemma_rows_suit(fields, segment.rows@, segment.rows@.len() as int);
}

} // verus!
