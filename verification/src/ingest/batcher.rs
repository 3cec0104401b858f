//! Batches: the columns of the rows that were gathered.

use vstd::prelude::*;
use vstd::string::*;

use crate::catalog::LogicalType;
use crate::ingest::event::{value_views, Event, EventContext, EventValue, EventValueView};
use crate::ingest::schema::{ColumnType, TableField, TableSchema, REST_COLUMN_NAME};
use crate::ingest::stage_error::{StageError, StageErrorView};
use crate::ingestion::materialize::{value_type, DataColumn};
use crate::ingestion::record::{NormalizedValue, ValueView};
use crate::text::{
    debug_text, decimal, decimal_text, signed_decimal, signed_text, text_debug,
};

verus! {

/// The columns of a batch, one for each field of the table.
#[derive(Debug, PartialEq, Eq)]
pub struct ColumnBatch {
    pub row_count: usize,
    pub columns: Vec<DataColumn>,
}

/// The error whose message ends with how a value is shown. Of a floating-point value that is left
/// open: it is shown by the number that its numeral rounds to.
pub open spec fn with_value(message: Seq<char>, value: EventValueView) -> StageErrorView {
    match value {
        EventValueView::Null => StageErrorView::Normalization(message + "Null"@),
        EventValueView::Bool(flag) => StageErrorView::Normalization(
            message + if flag {
                "Bool(true)"@
            } else {
                "Bool(false)"@
            },
        ),
        EventValueView::Int64(number) => StageErrorView::Normalization(
            message + "Int64("@ + signed_text(number as int) + ")"@,
        ),
        EventValueView::UInt64(number) => StageErrorView::Normalization(
            message + "UInt64("@ + decimal_text(number as nat) + ")"@,
        ),
        EventValueView::Float64(numeral) => StageErrorView::FloatMismatch { message, numeral },
        EventValueView::String(text) => StageErrorView::Normalization(
            message + "String("@ + text_debug(text) + ")"@,
        ),
        EventValueView::Timestamp(number) => StageErrorView::Normalization(
            message + "Timestamp("@ + signed_text(number as int) + ")"@,
        ),
    }
}

fn mismatch(message: String, value: &EventValue) -> (r: StageError)
    ensures
        r@ == with_value(message@, value@),
{
    match value {
        EventValue::Null => StageError::Normalization(message.concat("Null")),
        EventValue::Bool(flag) => StageError::Normalization(
            message.concat(
                if *flag {
                    "Bool(true)"
                } else {
                    "Bool(false)"
                },
            ),
        ),
        EventValue::Int64(number) => {
            let text: String = signed_decimal(*number);
            StageError::Normalization(message.concat("Int64(").concat(text.as_str()).concat(")"))
        },
        EventValue::UInt64(number) => {
            let text: String = decimal(*number);
            StageError::Normalization(message.concat("UInt64(").concat(text.as_str()).concat(")"))
        },
        EventValue::Float64(numeral) => StageError::FloatMismatch {
            message,
            numeral: numeral.clone(),
        },
        EventValue::String(text) => {
            let shown: String = debug_text(text.as_str());
            StageError::Normalization(message.concat("String(").concat(shown.as_str()).concat(")"))
        },
        EventValue::Timestamp(number) => {
            let text: String = signed_decimal(*number);
            StageError::Normalization(
                message.concat("Timestamp(").concat(text.as_str()).concat(")"),
            )
        },
    }
}

/// The message of a value that does not fit the column at a place.
pub open spec fn place_mismatch(
    place: nat,
    expected: Seq<char>,
    value: EventValueView,
) -> StageErrorView {
    with_value(
        "type mismatch for column index "@ + decimal_text(place) + ": expected "@ + expected
            + ", got "@,
        value,
    )
}

/// The message of a value that does not fit the column with a name.
pub open spec fn name_mismatch(
    name: Seq<char>,
    expected: Seq<char>,
    value: EventValueView,
) -> StageErrorView {
    with_value(
        "type mismatch for field '"@ + name + "': expected "@ + expected + ", got "@,
        value,
    )
}

/// The message of a number that a narrower column cannot hold.
pub open spec fn overflow(number: Seq<char>, range: Seq<char>, name: Seq<char>) -> StageErrorView {
    StageErrorView::Normalization(
        "value "@ + number + " overflows "@ + range + " range for field '"@ + name + "'"@,
    )
}

/// What a value becomes in the column of a field.
pub open spec fn cell_of(value: EventValueView, field: TableField, place: nat) -> Result<
    ValueView,
    StageErrorView,
> {
    if value is Null {
        Ok(ValueView::Null)
    } else {
        match field.ty {
            ColumnType::Utf8 => match value {
                EventValueView::String(text) => Ok(ValueView::Utf8(text)),
                _ => Err(place_mismatch(place, "String"@, value)),
            },
            ColumnType::Int64 => match value {
                EventValueView::Int64(number) => Ok(ValueView::Int64(number)),
                _ => Err(place_mismatch(place, "Int64"@, value)),
            },
            ColumnType::Int32 => match value {
                EventValueView::Int64(number) => if i32::MIN <= number <= i32::MAX {
                    Ok(ValueView::Int32(number as i32))
                } else {
                    Err(overflow(signed_text(number as int), "Int32"@, field.name@))
                },
                _ => Err(name_mismatch(field.name@, "Int64"@, value)),
            },
            ColumnType::Uint64 => match value {
                EventValueView::UInt64(number) => Ok(ValueView::UInt64(number)),
                _ => Err(place_mismatch(place, "UInt64"@, value)),
            },
            ColumnType::Uint32 => match value {
                EventValueView::UInt64(number) => if number <= u32::MAX {
                    Ok(ValueView::UInt32(number as u32))
                } else {
                    Err(overflow(decimal_text(number as nat), "Uint32"@, field.name@))
                },
                _ => Err(name_mismatch(field.name@, "UInt64"@, value)),
            },
            ColumnType::Float64 => match value {
                EventValueView::Float64(text) => Ok(ValueView::Float64(text)),
                _ => Err(place_mismatch(place, "Float64"@, value)),
            },
            ColumnType::Float32 => match value {
                EventValueView::Float64(text) => Ok(ValueView::Float32(text)),
                _ => Err(place_mismatch(place, "Float64"@, value)),
            },
            ColumnType::Bool => match value {
                EventValueView::Bool(flag) => Ok(ValueView::Bool(flag)),
                _ => Err(place_mismatch(place, "Bool"@, value)),
            },
            ColumnType::Timestamp => match value {
                EventValueView::Timestamp(number) => Ok(ValueView::Datetime(number)),
                _ => Err(name_mismatch(field.name@, "Timestamp"@, value)),
            },
        }
    }
}

/// What a value becomes in the column of the rest.
pub open spec fn rest_cell_of(value: EventValueView) -> ValueView {
    match value {
        EventValueView::String(text) => ValueView::Utf8(text),
        _ => ValueView::Null,
    }
}

/// The value at a place of a row, null if the row ends before it.
pub open spec fn value_at(row: Seq<EventValueView>, place: int) -> EventValueView {
    if place < row.len() {
        row[place]
    } else {
        EventValueView::Null
    }
}

/// What a row has in the column at a place.
pub open spec fn row_cell(row: Seq<EventValueView>, field: TableField, place: nat) -> Result<
    ValueView,
    StageErrorView,
> {
    if field.name@ == REST_COLUMN_NAME@ {
        Ok(rest_cell_of(value_at(row, place as int)))
    } else {
        cell_of(value_at(row, place as int), field, place)
    }
}

/// The column at a place, or why the first row that does not fit does not.
pub open spec fn column_of(
    rows: Seq<Seq<EventValueView>>,
    field: TableField,
    place: nat,
) -> Result<Seq<ValueView>, StageErrorView>
    decreases rows.len(),
{
    if rows.len() == 0 {
        Ok(Seq::empty())
    } else {
        match column_of(rows.drop_last(), field, place) {
            Err(e) => Err(e),
            Ok(cells) => match row_cell(rows.last(), field, place) {
                Err(e) => Err(e),
                Ok(cell) => Ok(cells.push(cell)),
            },
        }
    }
}

/// The first `count` columns, or why the first that cannot be built cannot.
pub open spec fn columns_of(
    rows: Seq<Seq<EventValueView>>,
    fields: Seq<TableField>,
    count: int,
) -> Result<Seq<Seq<ValueView>>, StageErrorView>
    decreases count,
{
    if count <= 0 {
        Ok(Seq::empty())
    } else {
        match columns_of(rows, fields, count - 1) {
            Err(e) => Err(e),
            Ok(columns) => match column_of(rows, fields[count - 1], (count - 1) as nat) {
                Err(e) => Err(e),
                Ok(column) => Ok(columns.push(column)),
            },
        }
    }
}

/// Whether a cell of a column is null.
pub open spec fn has_null(cells: Seq<ValueView>) -> bool {
    exists|i: int| 0 <= i < cells.len() && #[trigger] cells[i] is Null
}

/// The message of columns that do not make a batch.
pub open spec fn batch_error(text: Seq<char>) -> StageErrorView {
    StageErrorView::Write("failed to build RecordBatch: Invalid argument error: "@ + text)
}

/// The first of the first `count` columns that holds a null against its declaration, as an error.
pub open spec fn null_fault(
    columns: Seq<Seq<ValueView>>,
    fields: Seq<TableField>,
    count: int,
) -> Option<StageErrorView>
    decreases count,
{
    if count <= 0 {
        None
    } else {
        match null_fault(columns, fields, count - 1) {
            Some(e) => Some(e),
            None => if !fields[count - 1].nullable && has_null(columns[count - 1]) {
                Some(
                    batch_error(
                        "Column '"@ + fields[count - 1].name@
                            + "' is declared as non-nullable but contains null values"@,
                    ),
                )
            } else {
                None
            },
        }
    }
}

/// The name of a column type in the messages of batches.
pub open spec fn batch_type_name(ty: ColumnType) -> Seq<char> {
    match ty {
        ColumnType::Utf8 => "Utf8"@,
        ColumnType::Int64 => "Int64"@,
        ColumnType::Int32 => "Int32"@,
        ColumnType::Uint64 => "UInt64"@,
        ColumnType::Uint32 => "UInt32"@,
        ColumnType::Float64 => "Float64"@,
        ColumnType::Float32 => "Float32"@,
        ColumnType::Bool => "Boolean"@,
        ColumnType::Timestamp => "Timestamp(ms, \"UTC\")"@,
    }
}

/// The first of the first `count` fields that declares another type for the rest than text, as an
/// error.
pub open spec fn rest_fault(fields: Seq<TableField>, count: int) -> Option<StageErrorView>
    decreases count,
{
    if count <= 0 {
        None
    } else {
        match rest_fault(fields, count - 1) {
            Some(e) => Some(e),
            None => if fields[count - 1].name@ == REST_COLUMN_NAME@ && fields[count - 1].ty
                != ColumnType::Utf8 {
                Some(
                    batch_error(
                        "column types must match schema types, expected "@ + batch_type_name(
                            fields[count - 1].ty,
                        ) + " but found Utf8 at column index "@ + decimal_text(
                            (count - 1) as nat,
                        ),
                    ),
                )
            } else {
                None
            },
        }
    }
}

/// Why columns do not make a batch of a table.
pub open spec fn batch_fault(
    columns: Seq<Seq<ValueView>>,
    fields: Seq<TableField>,
) -> Option<StageErrorView> {
    if fields.len() == 0 {
        Some(batch_error("must either specify a row count or at least one column"@))
    } else {
        match null_fault(columns, fields, fields.len() as int) {
            Some(e) => Some(e),
            None => rest_fault(fields, fields.len() as int),
        }
    }
}

/// The batch of rows, or why there is none.
pub open spec fn batch_of(rows: Seq<Seq<EventValueView>>, fields: Seq<TableField>) -> Result<
    Seq<Seq<ValueView>>,
    StageErrorView,
> {
    match columns_of(rows, fields, fields.len() as int) {
        Err(e) => Err(e),
        Ok(columns) => match batch_fault(columns, fields) {
            Some(e) => Err(e),
            None => Ok(columns),
        },
    }
}

/// What columns hold.
pub open spec fn column_views(columns: Seq<DataColumn>) -> Seq<Seq<ValueView>> {
    Seq::new(columns.len(), |i: int| columns[i]@)
}

/// The rows of events.
pub open spec fn event_rows<C: EventContext>(events: Seq<Event<C>>) -> Seq<Seq<EventValueView>> {
    Seq::new(events.len(), |i: int| value_views(events[i].row.values@))
}

/// The type that a column's values have.
pub open spec fn stored_type(ty: ColumnType) -> LogicalType {
    match ty {
        ColumnType::Utf8 => LogicalType::Utf8,
        ColumnType::Int64 => LogicalType::Int64,
        ColumnType::Int32 => LogicalType::Int32,
        ColumnType::Uint64 => LogicalType::UInt64,
        ColumnType::Uint32 => LogicalType::UInt32,
        ColumnType::Float64 => LogicalType::Float64,
        ColumnType::Float32 => LogicalType::Float32,
        ColumnType::Bool => LogicalType::Bool,
        ColumnType::Timestamp => LogicalType::Datetime,
    }
}

/// The type of the column of a field: text for the rest.
pub open spec fn field_type(field: TableField) -> LogicalType {
    if field.name@ == REST_COLUMN_NAME@ {
        LogicalType::Utf8
    } else {
        stored_type(field.ty)
    }
}

fn empty_column(ty: ColumnType) -> (r: DataColumn)
    ensures
        r.logical_type() == stored_type(ty),
        r@ == Seq::<ValueView>::empty(),
{
    let column: DataColumn = match ty {
        ColumnType::Utf8 => DataColumn::Utf8(Vec::new()),
        ColumnType::Int64 => DataColumn::Int64(Vec::new()),
        ColumnType::Int32 => DataColumn::Int32(Vec::new()),
        ColumnType::Uint64 => DataColumn::UInt64(Vec::new()),
        ColumnType::Uint32 => DataColumn::UInt32(Vec::new()),
        ColumnType::Float64 => DataColumn::Float64(Vec::new()),
        ColumnType::Float32 => DataColumn::Float32(Vec::new()),
        ColumnType::Bool => DataColumn::Bool(Vec::new()),
        ColumnType::Timestamp => DataColumn::Datetime(Vec::new()),
    };
    assert(column@ =~= Seq::<ValueView>::empty());
    column
}

fn mismatch_at(place: usize, expected: &str, value: &EventValue) -> (r: Result<
    NormalizedValue,
    StageError,
>)
    ensures
        r matches Err(e) && e@ == place_mismatch(place as nat, expected@, value@),
{
    let number: String = decimal(place as u64);
    let message: String = "type mismatch for column index ".to_owned().concat(
        number.as_str(),
    ).concat(": expected ").concat(expected).concat(", got ");
    Err(mismatch(message, value))
}

fn mismatch_for(name: &String, expected: &str, value: &EventValue) -> (r: Result<
    NormalizedValue,
    StageError,
>)
    ensures
        r matches Err(e) && e@ == name_mismatch(name@, expected@, value@),
{
    let message: String = "type mismatch for field '".to_owned().concat(name.as_str()).concat(
        "': expected ",
    ).concat(expected).concat(", got ");
    Err(mismatch(message, value))
}

fn overflow_for(number: String, range: &str, name: &String) -> (r: Result<
    NormalizedValue,
    StageError,
>)
    ensures
        r matches Err(e) && e@ == overflow(number@, range@, name@),
{
    Err(
        StageError::Normalization(
            "value ".to_owned().concat(number.as_str()).concat(" overflows ").concat(
                range,
            ).concat(" range for field '").concat(name.as_str()).concat("'"),
        ),
    )
}

/// Makes a cell of a value.
fn cell(value: &EventValue, field: &TableField, place: usize) -> (r: Result<
    NormalizedValue,
    StageError,
>)
    ensures
        match r {
            Ok(made) => cell_of(value@, *field, place as nat) == Ok::<ValueView, StageErrorView>(
                made@,
            ),
            Err(e) => cell_of(value@, *field, place as nat) == Err::<ValueView, StageErrorView>(
                e@,
            ),
        },
{
    if let EventValue::Null = value {
        return Ok(NormalizedValue::Null);
    }
    match field.ty {
        ColumnType::Utf8 => match value {
            EventValue::String(text) => Ok(NormalizedValue::Utf8(text.clone())),
            _ => mismatch_at(place, "String", value),
        },
        ColumnType::Int64 => match value {
            EventValue::Int64(number) => Ok(NormalizedValue::Int64(*number)),
            _ => mismatch_at(place, "Int64", value),
        },
        ColumnType::Int32 => match value {
            EventValue::Int64(number) => if -2_147_483_648 <= *number && *number <= 2_147_483_647 {
                Ok(NormalizedValue::Int32(*number as i32))
            } else {
                overflow_for(signed_decimal(*number), "Int32", &field.name)
            },
            _ => mismatch_for(&field.name, "Int64", value),
        },
        ColumnType::Uint64 => match value {
            EventValue::UInt64(number) => Ok(NormalizedValue::UInt64(*number)),
            _ => mismatch_at(place, "UInt64", value),
        },
        ColumnType::Uint32 => match value {
            EventValue::UInt64(number) => if *number <= 4_294_967_295 {
                Ok(NormalizedValue::UInt32(*number as u32))
            } else {
                overflow_for(decimal(*number), "Uint32", &field.name)
            },
            _ => mismatch_for(&field.name, "UInt64", value),
        },
        ColumnType::Float64 => match value {
            EventValue::Float64(text) => Ok(NormalizedValue::Float64(text.clone())),
            _ => mismatch_at(place, "Float64", value),
        },
        ColumnType::Float32 => match value {
            EventValue::Float64(text) => Ok(NormalizedValue::Float32(text.clone())),
            _ => mismatch_at(place, "Float64", value),
        },
        ColumnType::Bool => match value {
            EventValue::Bool(flag) => Ok(NormalizedValue::Bool(*flag)),
            _ => mismatch_at(place, "Bool", value),
        },
        ColumnType::Timestamp => match value {
            EventValue::Timestamp(number) => Ok(NormalizedValue::Datetime(*number)),
            _ => mismatch_for(&field.name, "Timestamp", value),
        },
    }
}

/// Makes what a row has in the column at a place.
fn cell_of_row(values: &Vec<EventValue>, field: &TableField, place: usize, rest: bool) -> (r:
    Result<NormalizedValue, StageError>)
    requires
        rest == (field.name@ == REST_COLUMN_NAME@),
    ensures
        match r {
            Ok(made) => row_cell(value_views(values@), *field, place as nat) == Ok::<
                ValueView,
                StageErrorView,
            >(made@) && (made@ is Null || value_type(made@) == Some(field_type(*field))),
            Err(e) => row_cell(value_views(values@), *field, place as nat) == Err::<
                ValueView,
                StageErrorView,
            >(e@),
        },
{
    if place >= values.len() {
        return Ok(NormalizedValue::Null);
    }
    if rest {
        match &values[place] {
            EventValue::String(text) => Ok(NormalizedValue::Utf8(text.clone())),
            _ => Ok(NormalizedValue::Null),
        }
    } else {
        cell(&values[place], field, place)
    }
}

proof fn lemma_column_fault_persists(
    rows: Seq<Seq<EventValueView>>,
    field: TableField,
    place: nat,
    count: int,
)
    requires
        0 <= count <= rows.len(),
        column_of(rows.subrange(0, count), field, place) is Err,
    ensures
        column_of(rows, field, place) == column_of(rows.subrange(0, count), field, place),
    decreases rows.len(),
{
    if count < rows.len() {
        assert(rows.drop_last().subrange(0, count) =~= rows.subrange(0, count));
        lemma_column_fault_persists(rows.drop_last(), field, place, count);
    } else {
        assert(rows.subrange(0, count) =~= rows);
    }
}

fn build_column<C: EventContext>(
    events: &Vec<Event<C>>,
    field: &TableField,
    place: usize,
    rest_name: &String,
) -> (r: Result<DataColumn, StageError>)
    requires
        rest_name@ == REST_COLUMN_NAME@,
    ensures
        match r {
            Ok(column) => column_of(event_rows(events@), *field, place as nat) == Ok::<
                Seq<ValueView>,
                StageErrorView,
            >(column@) && column.logical_type() == field_type(*field),
            Err(e) => column_of(event_rows(events@), *field, place as nat) == Err::<
                Seq<ValueView>,
                StageErrorView,
            >(e@),
        },
{
    let ghost rows = event_rows(events@);
    let rest: bool = field.name == *rest_name;
    let mut column: DataColumn = if rest {
        empty_column(ColumnType::Utf8)
    } else {
        empty_column(field.ty)
    };
    let mut index: usize = 0;
    assert(rows.subrange(0, 0) =~= Seq::empty());
    while index < events.len()
        invariant
            index <= events@.len(),
            rows == event_rows(events@),
            rest == (field.name@ == REST_COLUMN_NAME@),
            column.logical_type() == field_type(*field),
            column_of(rows.subrange(0, index as int), *field, place as nat) == Ok::<
                Seq<ValueView>,
                StageErrorView,
            >(column@),
        decreases events@.len() - index,
    {
        let ghost through = rows.subrange(0, index + 1);
        assert(through.drop_last() =~= rows.subrange(0, index as int));
        assert(through.last() == value_views(events@[index as int].row.values@));
        match cell_of_row(&events[index].row.values, field, place, rest) {
            Ok(made) => {
                match made {
                    NormalizedValue::Null => column.append_null(),
                    _ => column.append_value(&made),
                }
            },
            Err(e) => {
                proof {
                    lemma_column_fault_persists(rows, *field, place as nat, index + 1);
                }
                return Err(e);
            },
        }
        index = index + 1;
    }
    assert(rows.subrange(0, rows.len() as int) =~= rows);
    Ok(column)
}

proof fn lemma_columns_fault_persists(
    rows: Seq<Seq<EventValueView>>,
    fields: Seq<TableField>,
    from: int,
    count: int,
)
    requires
        from <= count,
        columns_of(rows, fields, from) is Err,
    ensures
        columns_of(rows, fields, count) == columns_of(rows, fields, from),
    decreases count - from,
{
    if from < count {
        lemma_columns_fault_persists(rows, fields, from, count - 1);
    }
}

proof fn lemma_null_fault_persists(
    columns: Seq<Seq<ValueView>>,
    fields: Seq<TableField>,
    from: int,
    count: int,
)
    requires
        from <= count,
        null_fault(columns, fields, from) is Some,
    ensures
        null_fault(columns, fields, count) == null_fault(columns, fields, from),
    decreases count - from,
{
    if from < count {
        lemma_null_fault_persists(columns, fields, from, count - 1);
    }
}

proof fn lemma_rest_fault_persists(fields: Seq<TableField>, from: int, count: int)
    requires
        from <= count,
        rest_fault(fields, from) is Some,
    ensures
        rest_fault(fields, count) == rest_fault(fields, from),
    decreases count - from,
{
    if from < count {
        lemma_rest_fault_persists(fields, from, count - 1);
    }
}

fn any_none<T>(cells: &Vec<Option<T>>) -> (r: bool)
    ensures
        r == exists|i: int| 0 <= i < cells@.len() && #[trigger] cells@[i] is None,
{
    let mut index: usize = 0;
    while index < cells.len()
        invariant
            index <= cells@.len(),
            forall|i: int| 0 <= i < index ==> #[trigger] cells@[i] is Some,
        decreases cells@.len() - index,
    {
        if cells[index].is_none() {
            assert(cells@[index as int] is None);
            return true;
        }
        index = index + 1;
    }
    false
}

fn holds_null(column: &DataColumn) -> (r: bool)
    ensures
        r == has_null(column@),
{
    let found: bool = match column {
        DataColumn::Bool(cells) => any_none(cells),
        DataColumn::Int32(cells) => any_none(cells),
        DataColumn::Int64(cells) => any_none(cells),
        DataColumn::UInt32(cells) => any_none(cells),
        DataColumn::UInt64(cells) => any_none(cells),
        DataColumn::Float32(cells) => any_none(cells),
        DataColumn::Float64(cells) => any_none(cells),
        DataColumn::Utf8(cells) => any_none(cells),
        DataColumn::Datetime(cells) => any_none(cells),
    };
    proof {
        lemma_holds_null(*column);
    }
    found
}

/// A cell of a column is null where it has no value.
proof fn lemma_holds_null(column: DataColumn)
    ensures
        has_null(column@) == match column {
            DataColumn::Bool(cells) => exists|i: int|
                0 <= i < cells@.len() && #[trigger] cells@[i] is None,
            DataColumn::Int32(cells) => exists|i: int|
                0 <= i < cells@.len() && #[trigger] cells@[i] is None,
            DataColumn::Int64(cells) => exists|i: int|
                0 <= i < cells@.len() && #[trigger] cells@[i] is None,
            DataColumn::UInt32(cells) => exists|i: int|
                0 <= i < cells@.len() && #[trigger] cells@[i] is None,
            DataColumn::UInt64(cells) => exists|i: int|
                0 <= i < cells@.len() && #[trigger] cells@[i] is None,
            DataColumn::Float32(cells) => exists|i: int|
                0 <= i < cells@.len() && #[trigger] cells@[i] is None,
            DataColumn::Float64(cells) => exists|i: int|
                0 <= i < cells@.len() && #[trigger] cells@[i] is None,
            DataColumn::Utf8(cells) => exists|i: int|
                0 <= i < cells@.len() && #[trigger] cells@[i] is None,
            DataColumn::Datetime(cells) => exists|i: int|
                0 <= i < cells@.len() && #[trigger] cells@[i] is None,
        },
{
    match column {
        DataColumn::Bool(cells) => {
            assert(forall|i: int|
                0 <= i < cells@.len() ==> (#[trigger] cells@[i] is None == column@[i] is Null));
        },
        DataColumn::Int32(cells) => {
            assert(forall|i: int|
                0 <= i < cells@.len() ==> (#[trigger] cells@[i] is None == column@[i] is Null));
        },
        DataColumn::Int64(cells) => {
            assert(forall|i: int|
                0 <= i < cells@.len() ==> (#[trigger] cells@[i] is None == column@[i] is Null));
        },
        DataColumn::UInt32(cells) => {
            assert(forall|i: int|
                0 <= i < cells@.len() ==> (#[trigger] cells@[i] is None == column@[i] is Null));
        },
        DataColumn::UInt64(cells) => {
            assert(forall|i: int|
                0 <= i < cells@.len() ==> (#[trigger] cells@[i] is None == column@[i] is Null));
        },
        DataColumn::Float32(cells) => {
            assert(forall|i: int|
                0 <= i < cells@.len() ==> (#[trigger] cells@[i] is None == column@[i] is Null));
        },
        DataColumn::Float64(cells) => {
            assert(forall|i: int|
                0 <= i < cells@.len() ==> (#[trigger] cells@[i] is None == column@[i] is Null));
        },
        DataColumn::Utf8(cells) => {
            assert(forall|i: int|
                0 <= i < cells@.len() ==> (#[trigger] cells@[i] is None == column@[i] is Null));
        },
        DataColumn::Datetime(cells) => {
            assert(forall|i: int|
                0 <= i < cells@.len() ==> (#[trigger] cells@[i] is None == column@[i] is Null));
        },
    }
}

fn batch_failure(text: &str) -> (r: StageError)
    ensures
        r@ == batch_error(text@),
{
    StageError::Write(
        "failed to build RecordBatch: Invalid argument error: ".to_owned().concat(text),
    )
}

fn name_batch_type(ty: ColumnType) -> (r: &'static str)
    ensures
        r@ == batch_type_name(ty),
{
    match ty {
        ColumnType::Utf8 => "Utf8",
        ColumnType::Int64 => "Int64",
        ColumnType::Int32 => "Int32",
        ColumnType::Uint64 => "UInt64",
        ColumnType::Uint32 => "UInt32",
        ColumnType::Float64 => "Float64",
        ColumnType::Float32 => "Float32",
        ColumnType::Bool => "Boolean",
        ColumnType::Timestamp => "Timestamp(ms, \"UTC\")",
    }
}

/// Checks that columns make a batch of a table: there is one at least, none holds a null against
/// its declaration, and the rest is declared as text.
fn check_columns(columns: &Vec<DataColumn>, fields: &Vec<TableField>, rest_name: &String) -> (r:
    Option<StageError>)
    requires
        columns@.len() == fields@.len(),
        rest_name@ == REST_COLUMN_NAME@,
    ensures
        match r {
            Some(e) => batch_fault(column_views(columns@), fields@) == Some(e@),
            None => batch_fault(column_views(columns@), fields@) is None,
        },
{
    let ghost views = column_views(columns@);
    if fields.len() == 0 {
        return Some(batch_failure("must either specify a row count or at least one column"));
    }
    let mut index: usize = 0;
    while index < columns.len()
        invariant
            index <= columns@.len(),
            columns@.len() == fields@.len(),
            fields@.len() > 0,
            views == column_views(columns@),
            null_fault(views, fields@, index as int) is None,
        decreases columns@.len() - index,
    {
        assert(views[index as int] == columns@[index as int]@);
        if !fields[index].nullable && holds_null(&columns[index]) {
            proof {
                lemma_null_fault_persists(views, fields@, index + 1, fields@.len() as int);
            }
            let text: String = "Column '".to_owned().concat(fields[index].name.as_str()).concat(
                "' is declared as non-nullable but contains null values",
            );
            return Some(batch_failure(text.as_str()));
        }
        index = index + 1;
    }
    let mut place: usize = 0;
    while place < fields.len()
        invariant
            place <= fields@.len(),
            fields@.len() > 0,
            null_fault(views, fields@, fields@.len() as int) is None,
            views == column_views(columns@),
            rest_name@ == REST_COLUMN_NAME@,
            rest_fault(fields@, place as int) is None,
        decreases fields@.len() - place,
    {
        if fields[place].name == *rest_name && fields[place].ty != ColumnType::Utf8 {
            proof {
                lemma_rest_fault_persists(fields@, place + 1, fields@.len() as int);
            }
            let number: String = decimal(place as u64);
            let text: String = "column types must match schema types, expected ".to_owned().concat(
                name_batch_type(fields[place].ty),
            ).concat(" but found Utf8 at column index ").concat(number.as_str());
            return Some(batch_failure(text.as_str()));
        }
        place = place + 1;
    }
    None
}

/// Whether a batch is what a specification says.
pub open spec fn same_batch(
    r: Result<ColumnBatch, StageError>,
    rows: Seq<Seq<EventValueView>>,
    fields: Seq<TableField>,
) -> bool {
    match r {
        Ok(batch) => {
            &&& batch.row_count == rows.len()
            &&& batch_of(rows, fields) == Ok::<Seq<Seq<ValueView>>, StageErrorView>(
                column_views(batch.columns@),
            )
            &&& forall|i: int|
                0 <= i < fields.len() ==> (#[trigger] batch.columns@[i]).logical_type()
                    == field_type(fields[i])
        },
        Err(e) => batch_of(rows, fields) == Err::<Seq<Seq<ValueView>>, StageErrorView>(e@),
    }
}

/// Lays out the rows of events in columns.
pub fn build_batch<C: EventContext>(events: Vec<Event<C>>, schema: &TableSchema) -> (r: Result<
    ColumnBatch,
    StageError,
>)
    ensures
        same_batch(r, event_rows(events@), schema.fields@),
{
    let ghost rows = event_rows(events@);
    let ghost fields = schema.fields@;
    let rest_name: String = REST_COLUMN_NAME.to_owned();
    let mut columns: Vec<DataColumn> = Vec::new();
    let mut index: usize = 0;
    assert(column_views(columns@) =~= Seq::empty());
    while index < schema.fields.len()
        invariant
            index <= fields.len(),
            fields == schema.fields@,
            rows == event_rows(events@),
            rest_name@ == REST_COLUMN_NAME@,
            columns@.len() == index,
            columns_of(rows, fields, index as int) == Ok::<Seq<Seq<ValueView>>, StageErrorView>(
                column_views(columns@),
            ),
            forall|i: int|
                0 <= i < index ==> (#[trigger] columns@[i]).logical_type() == field_type(
                    fields[i],
                ),
        decreases fields.len() - index,
    {
        let ghost before = column_views(columns@);
        match build_column(&events, &schema.fields[index], index, &rest_name) {
            Ok(column) => {
                columns.push(column);
                assert(column_views(columns@) =~= before.push(column@));
            },
            Err(e) => {
                proof {
                    lemma_columns_fault_persists(rows, fields, index + 1, fields.len() as int);
                }
                return Err(e);
            },
        }
        index = index + 1;
    }
    match check_columns(&columns, &schema.fields, &rest_name) {
        Some(e) => Err(e),
        None => Ok(ColumnBatch { row_count: events.len(), columns }),
    }
}

/// Gathers events until there are enough for a batch.
#[derive(Debug)]
pub struct Batcher<C: EventContext> {
    pub buffer: Vec<Event<C>>,
    pub schema: TableSchema,
    pub capacity: usize,
}

impl<C: EventContext> Batcher<C> {
    pub fn new(schema: TableSchema, capacity: usize) -> (r: Self)
        ensures
            r.buffer@.len() == 0,
            r.schema == schema,
            r.capacity == capacity,
    {
        Batcher { buffer: Vec::new(), schema, capacity }
    }

    /// Takes everything that was gathered, as a batch.
    fn drain(&mut self) -> (r: Result<ColumnBatch, StageError>)
        ensures
            final(self).buffer@.len() == 0,
            final(self).schema == old(self).schema,
            final(self).capacity == old(self).capacity,
            same_batch(r, event_rows(old(self).buffer@), old(self).schema.fields@),
    {
        let mut events: Vec<Event<C>> = Vec::new();
        std::mem::swap(&mut events, &mut self.buffer);
        build_batch(events, &self.schema)
    }

    /// Adds an event. If there are then enough, they become a batch.
    pub fn push(&mut self, event: Event<C>) -> (r: Result<Option<ColumnBatch>, StageError>)
        ensures
            final(self).schema == old(self).schema,
            final(self).capacity == old(self).capacity,
            ({
                let gathered = old(self).buffer@.push(event);
                if gathered.len() >= old(self).capacity {
                    &&& final(self).buffer@.len() == 0
                    &&& match r {
                        Ok(Some(batch)) => same_batch(
                            Ok(batch),
                            event_rows(gathered),
                            old(self).schema.fields@,
                        ),
                        Ok(None) => false,
                        Err(e) => same_batch(
                            Err(e),
                            event_rows(gathered),
                            old(self).schema.fields@,
                        ),
                    }
                } else {
                    final(self).buffer@ == gathered && r == Ok::<Option<ColumnBatch>, StageError>(
                        None,
                    )
                }
            }),
    {
        self.buffer.push(event);
        if self.buffer.len() >= self.capacity {
            match self.drain() {
                Ok(batch) => Ok(Some(batch)),
                Err(e) => Err(e),
            }
        } else {
            Ok(None)
        }
    }

    /// Makes a batch of what is left.
    pub fn flush(&mut self) -> (r: Result<Option<ColumnBatch>, StageError>)
        ensures
            final(self).schema == old(self).schema,
            final(self).capacity == old(self).capacity,
            final(self).buffer@.len() == 0,
            match r {
                Ok(None) => old(self).buffer@.len() == 0,
                Ok(Some(batch)) => old(self).buffer@.len() > 0 && same_batch(
                    Ok(batch),
                    event_rows(old(self).buffer@),
                    old(self).schema.fields@,
                ),
                Err(e) => old(self).buffer@.len() > 0 && same_batch(
                    Err(e),
                    event_rows(old(self).buffer@),
                    old(self).schema.fields@,
                ),
            },
    {
        if self.buffer.len() == 0 {
            return Ok(None);
        }
        match self.drain() {
            Ok(batch) => Ok(Some(batch)),
            Err(e) => Err(e),
        }
    }
}

} // verus!
