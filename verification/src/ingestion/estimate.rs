//! Estimates of the bytes that rows occupy in storage and in memory.

use vstd::layout::size_of;
use vstd::prelude::*;
use vstd::utf8::encode_utf8;

use crate::catalog::LogicalType;
use crate::ingestion::materialize::value_type;
use crate::ingestion::record::{
    field_views, AcceptedRow, NormalizedField, NormalizedValue, RowView, ValueView,
};
use crate::ingestion::segment::{SegmentBuildError, SegmentRow};
use crate::json::{
    item_models, items_length, json_length, lemma_array_model, lemma_object_model, member_models,
    members_length, quote, quoted_length, stored_length_is_the_counted_length, stored_text, Json,
    JsonValue,
};

verus! {

/// How many rows' memory is counted for each row that a segment holds, since a vector may hold
/// more than its rows.
pub const SEGMENT_ROW_VECTOR_CAPACITY_HEADROOM: usize = 2;

/// How many bytes are counted beside those that an allocation holds.
pub const HEAP_ALLOCATION_HEADROOM_BYTES: u64 = 32;

/// How many bytes are counted beside each member of an object.
pub const JSON_OBJECT_ENTRY_HEADROOM_BYTES: u64 = 64;

/// Calls `String::capacity`. Claimed of it: it is at least the number of bytes of the text. How
/// much more it is depends on the allocator.
#[verifier::external_body]
fn text_capacity(text: &String) -> (capacity: usize)
    ensures
        capacity >= encode_utf8(text@).len(),
{
    text.capacity()
}

/// Calls `Vec::capacity`. Claimed of it: it is at least the number of items. How much more it is
/// depends on the allocator.
#[verifier::external_body]
fn item_capacity(items: &Vec<JsonValue>) -> (capacity: usize)
    ensures
        capacity >= items@.len(),
{
    items.capacity()
}

/// The stored bytes that a value is estimated at.
pub open spec fn value_bytes(value: ValueView) -> nat {
    match value {
        ValueView::Null => 1,
        ValueView::Bool(_) => 2,
        ValueView::Int32(_) => 5,
        ValueView::UInt32(_) => 5,
        ValueView::Float32(_) => 5,
        ValueView::Int64(_) => 9,
        ValueView::UInt64(_) => 9,
        ValueView::Float64(_) => 9,
        ValueView::Datetime(_) => 9,
        ValueView::Utf8(text) => encode_utf8(text).len() + 5,
    }
}

/// The stored bytes that values are estimated at.
pub open spec fn values_bytes<K>(fields: Seq<(K, ValueView)>) -> nat
    decreases fields.len(),
{
    if fields.len() == 0 {
        0
    } else {
        values_bytes(fields.drop_last()) + value_bytes(fields.last().1)
    }
}

/// The stored bytes that a row is estimated at.
pub open spec fn row_bytes(row: RowView) -> nat {
    32 + values_bytes(row.fields) + match row.remainder {
        Some(members) => json_length(Json::Object(members)) + 5,
        None => 1,
    }
}

/// The memory that is counted for an allocation.
pub open spec fn allocation_bytes(bytes: nat) -> nat {
    if bytes == 0 {
        0
    } else {
        bytes + HEAP_ALLOCATION_HEADROOM_BYTES as nat
    }
}

/// A part of a row whose memory is an allocation of its own: a text, or the items of an array.
#[derive(Debug)]
pub enum MeasuredPart<'a> {
    Text(&'a String),
    Items(&'a Vec<JsonValue>),
}

/// What a part of a row needs room for: a text, or a number of items.
pub enum PartView {
    Text(Seq<char>),
    Items(nat),
}

impl<'a> View for MeasuredPart<'a> {
    type V = PartView;

    open spec fn view(&self) -> PartView {
        match self {
            MeasuredPart::Text(text) => PartView::Text(text@),
            MeasuredPart::Items(items) => PartView::Items(items@.len()),
        }
    }
}

impl PartView {
    /// The capacity that the part needs at least.
    pub open spec fn least_capacity(self) -> nat {
        match self {
            PartView::Text(text) => encode_utf8(text).len(),
            PartView::Items(count) => count,
        }
    }

    /// The memory that is counted for the part if its allocation has this capacity.
    pub open spec fn memory(self, capacity: usize) -> nat {
        match self {
            PartView::Text(_) => allocation_bytes(capacity as nat),
            PartView::Items(_) => allocation_bytes(capacity as nat * size_of::<JsonValue>()),
        }
    }
}

/// What parts of a row need room for.
pub open spec fn part_views(parts: Seq<MeasuredPart<'_>>) -> Seq<PartView> {
    Seq::new(parts.len(), |i: int| parts[i]@)
}

/// The parts of a value, in the order in which they stand in it.
pub open spec fn json_parts(value: Json) -> Seq<PartView>
    decreases value,
{
    match value {
        Json::Text(text) => seq![PartView::Text(text)],
        Json::Array(items) => seq![PartView::Items(items.len())] + items_parts(items),
        Json::Object(members) => members_parts(members),
        _ => Seq::empty(),
    }
}

/// The parts of items.
pub open spec fn items_parts(items: Seq<Json>) -> Seq<PartView>
    decreases items,
{
    if items.len() == 0 {
        Seq::empty()
    } else {
        items_parts(items.subrange(0, items.len() - 1)) + json_parts(items[items.len() - 1])
    }
}

/// The parts of members: of each its key, and then those of its value.
pub open spec fn members_parts(members: Seq<(Seq<char>, Json)>) -> Seq<PartView>
    decreases members,
{
    if members.len() == 0 {
        Seq::empty()
    } else {
        members_parts(members.subrange(0, members.len() - 1)) + seq![
            PartView::Text(members[members.len() - 1].0),
        ] + json_parts(members[members.len() - 1].1)
    }
}

/// The texts among values.
pub open spec fn fields_parts<K>(fields: Seq<(K, ValueView)>) -> Seq<PartView>
    decreases fields.len(),
{
    if fields.len() == 0 {
        Seq::empty()
    } else {
        match fields.last().1 {
            ValueView::Utf8(text) => fields_parts(fields.drop_last()).push(PartView::Text(text)),
            _ => fields_parts(fields.drop_last()),
        }
    }
}

/// The parts of a row whose capacity is measured: its texts, and then those of its remainder.
pub open spec fn measured_parts(row: RowView) -> Seq<PartView> {
    fields_parts(row.fields) + match row.remainder {
        Some(members) => members_parts(members),
        None => Seq::empty(),
    }
}

/// Whether these can be the capacities of parts: one for each, and none too small.
pub open spec fn capacities_of(capacities: Seq<usize>, parts: Seq<PartView>) -> bool {
    &&& capacities.len() == parts.len()
    &&& forall|i: int|
        0 <= i < parts.len() ==> #[trigger] capacities[i] >= parts[i].least_capacity()
}

/// The memory of parts whose allocations have these capacities.
pub open spec fn parts_memory(parts: Seq<PartView>, capacities: Seq<usize>) -> nat
    decreases parts.len(),
{
    if parts.len() == 0 {
        0
    } else {
        parts_memory(parts.drop_last(), capacities) + parts.last().memory(
            capacities[parts.len() - 1],
        )
    }
}

/// The memory of a value beside its own place and the allocations of its parts.
pub open spec fn json_places(value: Json) -> nat
    decreases value,
{
    match value {
        Json::Array(items) => items_places(items),
        Json::Object(members) => members.len() * size_of::<(String, JsonValue)>() + members.len()
            * JSON_OBJECT_ENTRY_HEADROOM_BYTES as nat + members_places(members),
        _ => 0,
    }
}

/// The memory of items beside their own places and the allocations of their parts.
pub open spec fn items_places(items: Seq<Json>) -> nat
    decreases items,
{
    if items.len() == 0 {
        0
    } else {
        items_places(items.subrange(0, items.len() - 1)) + json_places(items[items.len() - 1])
    }
}

/// The memory of the values of members beside their own places and the allocations of their parts.
pub open spec fn members_places(members: Seq<(Seq<char>, Json)>) -> nat
    decreases members,
{
    if members.len() == 0 {
        0
    } else {
        members_places(members.subrange(0, members.len() - 1)) + json_places(
            members[members.len() - 1].1,
        )
    }
}

/// The memory of a row beside the allocations of its parts.
pub open spec fn row_places(row: RowView) -> nat {
    SEGMENT_ROW_VECTOR_CAPACITY_HEADROOM as nat * size_of::<SegmentRow>() + allocation_bytes(
        row.fields.len() * size_of::<NormalizedField>(),
    ) + match row.remainder {
        Some(members) => json_places(Json::Object(members)),
        None => 0,
    }
}

/// The memory that a row is estimated at if the allocations of its parts have these capacities.
pub open spec fn row_memory(row: RowView, capacities: Seq<usize>) -> nat {
    row_places(row) + parts_memory(measured_parts(row), capacities)
}

fn added(left: u64, right: u64) -> (r: Result<u64, SegmentBuildError>)
    ensures
        match r {
            Ok(sum) => sum == left + right,
            Err(e) => left + right > u64::MAX && e == SegmentBuildError::EstimatedBytesOverflow,
        },
{
    match left.checked_add(right) {
        Some(sum) => Ok(sum),
        None => Err(SegmentBuildError::EstimatedBytesOverflow),
    }
}

fn bytes_for_items(count: usize, item_bytes: usize) -> (r: Result<u64, SegmentBuildError>)
    ensures
        match r {
            Ok(product) => product == count * item_bytes,
            Err(e) => count * item_bytes > u64::MAX && e
                == SegmentBuildError::EstimatedBytesOverflow,
        },
{
    match (count as u64).checked_mul(item_bytes as u64) {
        Some(product) => Ok(product),
        None => Err(SegmentBuildError::EstimatedBytesOverflow),
    }
}

fn estimated_allocation(bytes: u64) -> (r: Result<u64, SegmentBuildError>)
    ensures
        match r {
            Ok(memory) => memory == allocation_bytes(bytes as nat),
            Err(e) => allocation_bytes(bytes as nat) > u64::MAX && e
                == SegmentBuildError::EstimatedBytesOverflow,
        },
{
    if bytes == 0 {
        Ok(0)
    } else {
        added(bytes, HEAP_ALLOCATION_HEADROOM_BYTES)
    }
}

/// Whether a count is the exact number, or the number does not fit.
pub open spec fn counted(r: Result<u64, SegmentBuildError>, exact: nat) -> bool {
    match r {
        Ok(bytes) => bytes == exact,
        Err(e) => exact > u64::MAX && e == SegmentBuildError::EstimatedBytesOverflow,
    }
}

fn count_quoted(text: &String) -> (r: u64)
    ensures
        r == quoted_length(text@),
{
    match quote(text.as_str()) {
        Some(quoted) => {
            let bytes: &[u8] = quoted.as_str().as_bytes();
            bytes.len() as u64
        },
        None => 0,
    }
}

proof fn lemma_items_length_grows(items: Seq<Json>, count: int)
    requires
        0 <= count <= items.len(),
    ensures
        items_length(items.subrange(0, count)) <= items_length(items),
    decreases items.len() - count,
{
    if count == items.len() {
        assert(items.subrange(0, count) =~= items);
    } else {
        let more = items.subrange(0, count + 1);
        assert(more.subrange(0, more.len() - 1) =~= items.subrange(0, count));
        lemma_items_length_grows(items, count + 1);
    }
}

proof fn lemma_members_length_grows(members: Seq<(Seq<char>, Json)>, count: int)
    requires
        0 <= count <= members.len(),
    ensures
        members_length(members.subrange(0, count)) <= members_length(members),
    decreases members.len() - count,
{
    if count == members.len() {
        assert(members.subrange(0, count) =~= members);
    } else {
        let more = members.subrange(0, count + 1);
        assert(more.subrange(0, more.len() - 1) =~= members.subrange(0, count));
        lemma_members_length_grows(members, count + 1);
    }
}

/// Counts the bytes of a value as JSON.
fn count_json(value: &JsonValue) -> (r: Result<u64, SegmentBuildError>)
    ensures
        counted(r, json_length(value.model())),
    decreases value,
{
    match value {
        JsonValue::Null => Ok(4),
        JsonValue::Bool(flag) => if *flag {
            Ok(4)
        } else {
            Ok(5)
        },
        JsonValue::Number(text) => {
            let bytes: &[u8] = text.as_str().as_bytes();
            Ok(bytes.len() as u64)
        },
        JsonValue::String(text) => Ok(count_quoted(text)),
        JsonValue::Array(items) => {
            let ghost models = item_models(items@);
            proof {
                lemma_array_model(*items);
            }
            let mut total: u64 = if items.len() == 0 {
                2
            } else {
                1
            };
            let ghost base = total as nat;
            let mut index: usize = 0;
            assert(models.subrange(0, 0) =~= Seq::empty());
            while index < items.len()
                invariant
                    index <= items@.len(),
                    *value == JsonValue::Array(*items),
                    models == item_models(items@),
                    base <= 2,
                    json_length(value.model()) == base + items_length(models),
                    total == base + items_length(models.subrange(0, index as int)),
                decreases items@.len() - index,
            {
                proof {
                    let more = models.subrange(0, index + 1);
                    assert(more.subrange(0, more.len() - 1) =~= models.subrange(0, index as int));
                    assert(more[more.len() - 1] == items@[index as int].model());
                    lemma_items_length_grows(models, index + 1);
                }
                let length: u64 = match count_json(&items[index]) {
                    Ok(length) => length,
                    Err(e) => {
                        return Err(e);
                    },
                };
                total = match added(total, length) {
                    Ok(sum) => sum,
                    Err(e) => {
                        return Err(e);
                    },
                };
                total = match added(total, 1) {
                    Ok(sum) => sum,
                    Err(e) => {
                        return Err(e);
                    },
                };
                index = index + 1;
            }
            assert(models.subrange(0, models.len() as int) =~= models);
            Ok(total)
        },
        JsonValue::Object(object) => {
            proof {
                lemma_object_model(*object);
            }
            count_members(&object.members)
        },
    }
}

/// Counts the bytes of an object as JSON.
fn count_members(members: &Vec<(String, JsonValue)>) -> (r: Result<u64, SegmentBuildError>)
    ensures
        counted(r, json_length(Json::Object(member_models(members@)))),
    decreases members,
{
    let ghost models = member_models(members@);
    let mut total: u64 = if members.len() == 0 {
        2
    } else {
        1
    };
    let ghost base = total as nat;
    let mut index: usize = 0;
    assert(models.subrange(0, 0) =~= Seq::empty());
    while index < members.len()
        invariant
            index <= members@.len(),
            models == member_models(members@),
            base <= 2,
            json_length(Json::Object(models)) == base + members_length(models),
            total == base + members_length(models.subrange(0, index as int)),
        decreases members@.len() - index,
    {
        proof {
            let more = models.subrange(0, index + 1);
            assert(more.subrange(0, more.len() - 1) =~= models.subrange(0, index as int));
            assert(more[more.len() - 1] == (
                members@[index as int].0@,
                members@[index as int].1.model(),
            ));
            lemma_members_length_grows(models, index + 1);
        }
        let length: u64 = match count_json(&members[index].1) {
            Ok(length) => length,
            Err(e) => {
                return Err(e);
            },
        };
        total = match added(total, count_quoted(&members[index].0)) {
            Ok(sum) => sum,
            Err(e) => {
                return Err(e);
            },
        };
        total = match added(total, length) {
            Ok(sum) => sum,
            Err(e) => {
                return Err(e);
            },
        };
        total = match added(total, 2) {
            Ok(sum) => sum,
            Err(e) => {
                return Err(e);
            },
        };
        index = index + 1;
    }
    assert(models.subrange(0, models.len() as int) =~= models);
    Ok(total)
}

fn estimate_uncompressed_value(value: &NormalizedValue) -> (r: Result<u64, SegmentBuildError>)
    ensures
        counted(r, value_bytes(value@)),
{
    match value {
        NormalizedValue::Null => Ok(1),
        NormalizedValue::Bool(_) => Ok(2),
        NormalizedValue::Int32(_) => Ok(5),
        NormalizedValue::UInt32(_) => Ok(5),
        NormalizedValue::Float32(_) => Ok(5),
        NormalizedValue::Int64(_) => Ok(9),
        NormalizedValue::UInt64(_) => Ok(9),
        NormalizedValue::Float64(_) => Ok(9),
        NormalizedValue::Datetime(_) => Ok(9),
        NormalizedValue::Utf8(text) => {
            let bytes: &[u8] = text.as_str().as_bytes();
            added(bytes.len() as u64, 5)
        },
    }
}

proof fn lemma_values_bytes_grow<K>(fields: Seq<(K, ValueView)>, count: int)
    requires
        0 <= count <= fields.len(),
    ensures
        values_bytes(fields.subrange(0, count)) <= values_bytes(fields),
    decreases fields.len() - count,
{
    if count == fields.len() {
        assert(fields.subrange(0, count) =~= fields);
    } else {
        let more = fields.subrange(0, count + 1);
        assert(more.drop_last() =~= fields.subrange(0, count));
        lemma_values_bytes_grow(fields, count + 1);
    }
}

/// Estimates the stored bytes of a row.
pub fn estimate_row(row: &AcceptedRow) -> (r: Result<u64, SegmentBuildError>)
    ensures
        counted(r, row_bytes(row@)),
{
    let ghost views = field_views(row.fields@);
    let mut total: u64 = 32;
    let mut index: usize = 0;
    assert(views.subrange(0, 0) =~= Seq::empty());
    while index < row.fields.len()
        invariant
            index <= row.fields@.len(),
            views == field_views(row.fields@),
            row_bytes(row@) >= 32 + values_bytes(views),
            total == 32 + values_bytes(views.subrange(0, index as int)),
        decreases row.fields@.len() - index,
    {
        proof {
            let more = views.subrange(0, index + 1);
            assert(more.drop_last() =~= views.subrange(0, index as int));
            assert(more.last() == (
                row.fields@[index as int].field_id,
                row.fields@[index as int].value@,
            ));
            lemma_values_bytes_grow(views, index + 1);
        }
        let bytes: u64 = match estimate_uncompressed_value(row.fields[index].value()) {
            Ok(bytes) => bytes,
            Err(e) => {
                return Err(e);
            },
        };
        total = match added(total, bytes) {
            Ok(sum) => sum,
            Err(e) => {
                return Err(e);
            },
        };
        index = index + 1;
    }
    assert(views.subrange(0, views.len() as int) =~= views);
    let remainder_bytes: u64 = match row.remainder() {
        Some(object) => {
            let length: u64 = match count_members(&object.members) {
                Ok(length) => length,
                Err(e) => {
                    return Err(e);
                },
            };
            match added(length, 5) {
                Ok(sum) => sum,
                Err(e) => {
                    return Err(e);
                },
            }
        },
        None => 1,
    };
    added(total, remainder_bytes)
}

fn collect_json_parts<'a>(parts: &mut Vec<MeasuredPart<'a>>, value: &'a JsonValue)
    ensures
        part_views(final(parts)@) == part_views(old(parts)@) + json_parts(value.model()),
    decreases value,
{
    let ghost before = part_views(parts@);
    match value {
        JsonValue::Null => {},
        JsonValue::Bool(_) => {},
        JsonValue::Number(_) => {},
        JsonValue::String(text) => {
            parts.push(MeasuredPart::Text(text));
            assert(part_views(parts@) =~= before + seq![PartView::Text(text@)]);
        },
        JsonValue::Array(items) => {
            proof {
                lemma_array_model(*items);
            }
            parts.push(MeasuredPart::Items(items));
            let ghost opened = part_views(parts@);
            assert(opened =~= before + seq![PartView::Items(items@.len())]);
            collect_items_parts(parts, items);
            assert(part_views(parts@) =~= before + (seq![PartView::Items(items@.len())]
                + items_parts(item_models(items@))));
        },
        JsonValue::Object(object) => {
            proof {
                lemma_object_model(*object);
            }
            collect_members_parts(parts, &object.members)
        },
    }
    assert(before + Seq::<PartView>::empty() =~= before);
}

fn collect_items_parts<'a>(parts: &mut Vec<MeasuredPart<'a>>, items: &'a Vec<JsonValue>)
    ensures
        part_views(final(parts)@) == part_views(old(parts)@) + items_parts(item_models(items@)),
    decreases items,
{
    let ghost before = part_views(parts@);
    let ghost models = item_models(items@);
    let mut index: usize = 0;
    assert(models.subrange(0, 0) =~= Seq::empty());
    assert(before + Seq::<PartView>::empty() =~= before);
    while index < items.len()
        invariant
            index <= items@.len(),
            models == item_models(items@),
            part_views(parts@) == before + items_parts(models.subrange(0, index as int)),
        decreases items@.len() - index,
    {
        collect_json_parts(parts, &items[index]);
        proof {
            let more = models.subrange(0, index + 1);
            assert(more.subrange(0, more.len() - 1) =~= models.subrange(0, index as int));
            assert(more[more.len() - 1] == items@[index as int].model());
            assert(part_views(parts@) =~= before + items_parts(more));
        }
        index = index + 1;
    }
    assert(models.subrange(0, models.len() as int) =~= models);
}

fn collect_members_parts<'a>(
    parts: &mut Vec<MeasuredPart<'a>>,
    members: &'a Vec<(String, JsonValue)>,
)
    ensures
        part_views(final(parts)@) == part_views(old(parts)@) + members_parts(
            member_models(members@),
        ),
    decreases members,
{
    let ghost before = part_views(parts@);
    let ghost models = member_models(members@);
    let mut index: usize = 0;
    assert(models.subrange(0, 0) =~= Seq::empty());
    assert(before + Seq::<PartView>::empty() =~= before);
    while index < members.len()
        invariant
            index <= members@.len(),
            models == member_models(members@),
            part_views(parts@) == before + members_parts(models.subrange(0, index as int)),
        decreases members@.len() - index,
    {
        let ghost held = part_views(parts@);
        parts.push(MeasuredPart::Text(&members[index].0));
        assert(part_views(parts@) =~= held + seq![PartView::Text(members@[index as int].0@)]);
        collect_json_parts(parts, &members[index].1);
        proof {
            let more = models.subrange(0, index + 1);
            assert(more.subrange(0, more.len() - 1) =~= models.subrange(0, index as int));
            assert(more[more.len() - 1] == (
                members@[index as int].0@,
                members@[index as int].1.model(),
            ));
            assert(part_views(parts@) =~= before + members_parts(more));
        }
        index = index + 1;
    }
    assert(models.subrange(0, models.len() as int) =~= models);
}

/// The parts of a row whose capacity is measured.
fn collect_parts<'a>(row: &'a AcceptedRow) -> (r: Vec<MeasuredPart<'a>>)
    ensures
        part_views(r@) == measured_parts(row@),
{
    let ghost views = field_views(row.fields@);
    let mut parts: Vec<MeasuredPart<'a>> = Vec::new();
    let mut index: usize = 0;
    assert(views.subrange(0, 0) =~= Seq::empty());
    assert(part_views(parts@) =~= Seq::empty());
    while index < row.fields.len()
        invariant
            index <= row.fields@.len(),
            views == field_views(row.fields@),
            part_views(parts@) == fields_parts(views.subrange(0, index as int)),
        decreases row.fields@.len() - index,
    {
        proof {
            let more = views.subrange(0, index + 1);
            assert(more.drop_last() =~= views.subrange(0, index as int));
            assert(more.last() == (
                row.fields@[index as int].field_id,
                row.fields@[index as int].value@,
            ));
        }
        let ghost before = part_views(parts@);
        if let NormalizedValue::Utf8(text) = &row.fields[index].value {
            parts.push(MeasuredPart::Text(text));
            assert(part_views(parts@) =~= before.push(PartView::Text(text@)));
        }
        index = index + 1;
    }
    assert(views.subrange(0, views.len() as int) =~= views);
    match &row.remainder {
        Some(object) => collect_members_parts(&mut parts, &object.members),
        None => {
            assert(part_views(parts@) =~= part_views(parts@) + Seq::<PartView>::empty());
        },
    }
    parts
}

/// Measures the capacities that the allocator gave to the parts of a row.
pub fn measure_row(row: &AcceptedRow) -> (r: Vec<usize>)
    ensures
        capacities_of(r@, measured_parts(row@)),
{
    let parts: Vec<MeasuredPart<'_>> = collect_parts(row);
    let ghost views = part_views(parts@);
    let mut capacities: Vec<usize> = Vec::new();
    let mut index: usize = 0;
    while index < parts.len()
        invariant
            index <= parts@.len(),
            views == part_views(parts@),
            capacities@.len() == index,
            forall|i: int|
                0 <= i < index ==> #[trigger] capacities@[i] >= views[i].least_capacity(),
        decreases parts@.len() - index,
    {
        assert(views[index as int] == parts@[index as int]@);
        let capacity: usize = match &parts[index] {
            MeasuredPart::Text(text) => text_capacity(text),
            MeasuredPart::Items(items) => item_capacity(items),
        };
        capacities.push(capacity);
        index = index + 1;
    }
    capacities
}

proof fn lemma_parts_memory_grows(parts: Seq<PartView>, capacities: Seq<usize>, count: int)
    requires
        0 <= count <= parts.len(),
    ensures
        parts_memory(parts.subrange(0, count), capacities) <= parts_memory(parts, capacities),
    decreases parts.len() - count,
{
    if count == parts.len() {
        assert(parts.subrange(0, count) =~= parts);
    } else {
        let more = parts.subrange(0, count + 1);
        assert(more.drop_last() =~= parts.subrange(0, count));
        lemma_parts_memory_grows(parts, capacities, count + 1);
    }
}

fn part_memory(part: &MeasuredPart<'_>, capacity: usize) -> (r: Result<u64, SegmentBuildError>)
    ensures
        counted(r, part@.memory(capacity)),
{
    match part {
        MeasuredPart::Text(_) => estimated_allocation(capacity as u64),
        MeasuredPart::Items(_) => match bytes_for_items(
            capacity,
            std::mem::size_of::<JsonValue>(),
        ) {
            Ok(bytes) => estimated_allocation(bytes),
            Err(e) => Err(e),
        },
    }
}

/// Adds the memory of parts whose allocations have these capacities.
fn add_parts_memory(base: u64, parts: &Vec<MeasuredPart<'_>>, capacities: &[usize]) -> (r: Result<
    u64,
    SegmentBuildError,
>)
    requires
        capacities@.len() == parts@.len(),
    ensures
        counted(r, base as nat + parts_memory(part_views(parts@), capacities@)),
{
    let ghost views = part_views(parts@);
    let mut total: u64 = base;
    let mut index: usize = 0;
    assert(views.subrange(0, 0) =~= Seq::empty());
    while index < parts.len()
        invariant
            index <= parts@.len(),
            capacities@.len() == parts@.len(),
            views == part_views(parts@),
            total == base + parts_memory(views.subrange(0, index as int), capacities@),
        decreases parts@.len() - index,
    {
        proof {
            let more = views.subrange(0, index + 1);
            assert(more.drop_last() =~= views.subrange(0, index as int));
            assert(more.last() == parts@[index as int]@);
            lemma_parts_memory_grows(views, capacities@, index + 1);
        }
        let bytes: u64 = match part_memory(&parts[index], capacities[index]) {
            Ok(bytes) => bytes,
            Err(e) => {
                return Err(e);
            },
        };
        total = match added(total, bytes) {
            Ok(sum) => sum,
            Err(e) => {
                return Err(e);
            },
        };
        index = index + 1;
    }
    assert(views.subrange(0, views.len() as int) =~= views);
    Ok(total)
}

proof fn lemma_items_places_grow(items: Seq<Json>, count: int)
    requires
        0 <= count <= items.len(),
    ensures
        items_places(items.subrange(0, count)) <= items_places(items),
    decreases items.len() - count,
{
    if count == items.len() {
        assert(items.subrange(0, count) =~= items);
    } else {
        let more = items.subrange(0, count + 1);
        assert(more.subrange(0, more.len() - 1) =~= items.subrange(0, count));
        lemma_items_places_grow(items, count + 1);
    }
}

proof fn lemma_members_places_grow(members: Seq<(Seq<char>, Json)>, count: int)
    requires
        0 <= count <= members.len(),
    ensures
        members_places(members.subrange(0, count)) <= members_places(members),
    decreases members.len() - count,
{
    if count == members.len() {
        assert(members.subrange(0, count) =~= members);
    } else {
        let more = members.subrange(0, count + 1);
        assert(more.subrange(0, more.len() - 1) =~= members.subrange(0, count));
        lemma_members_places_grow(members, count + 1);
    }
}

/// Counts the memory of a value beside its own place and the allocations of its parts.
fn count_json_places(value: &JsonValue) -> (r: Result<u64, SegmentBuildError>)
    ensures
        counted(r, json_places(value.model())),
    decreases value,
{
    match value {
        JsonValue::Null => Ok(0),
        JsonValue::Bool(_) => Ok(0),
        JsonValue::Number(_) => Ok(0),
        JsonValue::String(_) => Ok(0),
        JsonValue::Array(items) => {
            let ghost models = item_models(items@);
            proof {
                lemma_array_model(*items);
            }
            let mut total: u64 = 0;
            let mut index: usize = 0;
            assert(models.subrange(0, 0) =~= Seq::empty());
            while index < items.len()
                invariant
                    index <= items@.len(),
                    *value == JsonValue::Array(*items),
                    models == item_models(items@),
                    json_places(value.model()) == items_places(models),
                    total == items_places(models.subrange(0, index as int)),
                decreases items@.len() - index,
            {
                proof {
                    let more = models.subrange(0, index + 1);
                    assert(more.subrange(0, more.len() - 1) =~= models.subrange(0, index as int));
                    assert(more[more.len() - 1] == items@[index as int].model());
                    lemma_items_places_grow(models, index + 1);
                }
                let bytes: u64 = match count_json_places(&items[index]) {
                    Ok(bytes) => bytes,
                    Err(e) => {
                        return Err(e);
                    },
                };
                total = match added(total, bytes) {
                    Ok(sum) => sum,
                    Err(e) => {
                        return Err(e);
                    },
                };
                index = index + 1;
            }
            assert(models.subrange(0, models.len() as int) =~= models);
            Ok(total)
        },
        JsonValue::Object(object) => {
            proof {
                lemma_object_model(*object);
            }
            count_members_places(&object.members)
        },
    }
}

/// Counts the memory of an object beside its own place and the allocations of its parts.
fn count_members_places(members: &Vec<(String, JsonValue)>) -> (r: Result<u64, SegmentBuildError>)
    ensures
        counted(r, json_places(Json::Object(member_models(members@)))),
    decreases members,
{
    let ghost models = member_models(members@);
    let entry_bytes: u64 = match bytes_for_items(
        members.len(),
        std::mem::size_of::<(String, JsonValue)>(),
    ) {
        Ok(bytes) => bytes,
        Err(e) => {
            return Err(e);
        },
    };
    let entry_overhead: u64 = match (members.len() as u64).checked_mul(
        JSON_OBJECT_ENTRY_HEADROOM_BYTES,
    ) {
        Some(bytes) => bytes,
        None => {
            return Err(SegmentBuildError::EstimatedBytesOverflow);
        },
    };
    let mut total: u64 = match added(entry_bytes, entry_overhead) {
        Ok(sum) => sum,
        Err(e) => {
            return Err(e);
        },
    };
    let ghost base = total as nat;
    let mut index: usize = 0;
    assert(models.subrange(0, 0) =~= Seq::empty());
    while index < members.len()
        invariant
            index <= members@.len(),
            models == member_models(members@),
            json_places(Json::Object(models)) == base + members_places(models),
            total == base + members_places(models.subrange(0, index as int)),
        decreases members@.len() - index,
    {
        proof {
            let more = models.subrange(0, index + 1);
            assert(more.subrange(0, more.len() - 1) =~= models.subrange(0, index as int));
            assert(more[more.len() - 1] == (
                members@[index as int].0@,
                members@[index as int].1.model(),
            ));
            lemma_members_places_grow(models, index + 1);
        }
        let bytes: u64 = match count_json_places(&members[index].1) {
            Ok(bytes) => bytes,
            Err(e) => {
                return Err(e);
            },
        };
        total = match added(total, bytes) {
            Ok(sum) => sum,
            Err(e) => {
                return Err(e);
            },
        };
        index = index + 1;
    }
    assert(models.subrange(0, models.len() as int) =~= models);
    Ok(total)
}

/// Counts the memory of a row beside the allocations of its parts.
fn count_row_places(row: &AcceptedRow) -> (r: Result<u64, SegmentBuildError>)
    ensures
        counted(r, row_places(row@)),
{
    let row_bytes: u64 = match bytes_for_items(
        SEGMENT_ROW_VECTOR_CAPACITY_HEADROOM,
        std::mem::size_of::<SegmentRow>(),
    ) {
        Ok(bytes) => bytes,
        Err(e) => {
            return Err(e);
        },
    };
    let field_bytes: u64 = match bytes_for_items(
        row.fields.len(),
        std::mem::size_of::<NormalizedField>(),
    ) {
        Ok(bytes) => bytes,
        Err(e) => {
            return Err(e);
        },
    };
    let allocated: u64 = match estimated_allocation(field_bytes) {
        Ok(bytes) => bytes,
        Err(e) => {
            return Err(e);
        },
    };
    let total: u64 = match added(row_bytes, allocated) {
        Ok(sum) => sum,
        Err(e) => {
            return Err(e);
        },
    };
    match row.remainder() {
        Some(object) => match count_members_places(&object.members) {
            Ok(bytes) => added(total, bytes),
            Err(e) => Err(e),
        },
        None => Ok(total),
    }
}

/// The memory of a row in a segment, if the allocations of its parts have these capacities.
pub fn resident_row_bytes(row: &AcceptedRow, capacities: &[usize]) -> (r: Result<
    u64,
    SegmentBuildError,
>)
    requires
        capacities@.len() == measured_parts(row@).len(),
    ensures
        counted(r, row_memory(row@, capacities@)),
{
    let parts: Vec<MeasuredPart<'_>> = collect_parts(row);
    assert(parts@.len() == part_views(parts@).len());
    match count_row_places(row) {
        Ok(base) => add_parts_memory(base, &parts, capacities),
        Err(e) => Err(e),
    }
}

/// Estimates the memory of a row in a segment. How much it is beside what the row needs depends on
/// the capacities that the allocator gave.
pub fn estimate_resident_row(row: &AcceptedRow) -> (r: Result<u64, SegmentBuildError>)
    ensures
        exists|capacities: Seq<usize>|
            capacities_of(capacities, measured_parts(row@)) && counted(
                r,
                #[trigger] row_memory(row@, capacities),
            ),
{
    let capacities: Vec<usize> = measure_row(row);
    let estimate: Result<u64, SegmentBuildError> = resident_row_bytes(row, capacities.as_slice());
    assert(counted(estimate, row_memory(row@, capacities@)));
    estimate
}

proof fn lemma_parts_memory_monotonic(
    parts: Seq<PartView>,
    smaller: Seq<usize>,
    larger: Seq<usize>,
)
    requires
        forall|i: int| 0 <= i < parts.len() ==> #[trigger] smaller[i] <= larger[i],
    ensures
        parts_memory(parts, smaller) <= parts_memory(parts, larger),
    decreases parts.len(),
{
    if parts.len() > 0 {
        lemma_parts_memory_monotonic(parts.drop_last(), smaller, larger);
        let low = smaller[parts.len() - 1] as nat;
        let high = larger[parts.len() - 1] as nat;
        let size = size_of::<JsonValue>();
        assert(low <= high);
        assert(low * size <= high * size) by (nonlinear_arith)
            requires
                low <= high,
        ;
    }
}

/// A row is never estimated lower because an allocation has more room.
pub proof fn memory_grows_with_capacity(row: RowView, smaller: Seq<usize>, larger: Seq<usize>)
    requires
        forall|i: int|
            0 <= i < measured_parts(row).len() ==> #[trigger] smaller[i] <= larger[i],
    ensures
        row_memory(row, smaller) <= row_memory(row, larger),
{
    lemma_parts_memory_monotonic(measured_parts(row), smaller, larger);
}

/// How many bytes the values of a type of fixed size take.
pub open spec fn fixed_width(logical_type: LogicalType) -> Option<nat> {
    match logical_type {
        LogicalType::Bool => Some(1),
        LogicalType::Int32 | LogicalType::UInt32 | LogicalType::Float32 => Some(4),
        LogicalType::Int64 | LogicalType::UInt64 | LogicalType::Float64
        | LogicalType::Datetime => Some(8),
        _ => None,
    }
}

/// A value is estimated at one byte for whether it is null, and at its width. A text has the width of
/// its bytes and of the four bytes of a length. Two lists of values are estimated at both.
pub proof fn values_are_estimated_at_their_width<K>(
    value: ValueView,
    left: Seq<(K, ValueView)>,
    right: Seq<(K, ValueView)>,
    key: K,
)
    ensures
        value_bytes(value) == 1 + match value_type(value) {
            None => 0,
            Some(logical_type) => match fixed_width(logical_type) {
                Some(width) => width,
                None => 4 + encode_utf8(value->Utf8_0).len(),
            },
        },
        values_bytes(left + right) == values_bytes(left) + values_bytes(right),
        values_bytes(seq![(key, value)]) == value_bytes(value),
    decreases right.len(),
{
    if right.len() == 0 {
        assert(left + right =~= left);
    } else {
        values_are_estimated_at_their_width(value, left, right.drop_last(), key);
        assert((left + right).drop_last() =~= left + right.drop_last());
    }
    let one = seq![(key, value)];
    assert(one.drop_last() =~= Seq::empty());
    assert(values_bytes(one.drop_last()) == 0);
}

/// A row is estimated at the identity of its event, its two instants, its values and its remainder,
/// which is estimated like a text at the length of what is stored for it.
pub proof fn rows_are_estimated_at_their_parts(row: RowView)
    ensures
        row_bytes(row) == 16 + 8 + 8 + values_bytes(row.fields) + match row.remainder {
            None => value_bytes(ValueView::Null),
            Some(members) => value_bytes(ValueView::Utf8(stored_text(members))),
        },
{
    if let Some(members) = row.remainder {
        stored_length_is_the_counted_length(members);
    }
}

/// The parts of values are those of each of them, one behind the other: a text is a part, an array is
/// the room for its items and their parts, and an object is its keys, each with the parts of its
/// value behind it.
pub proof fn every_text_is_measured(
    items: Seq<Json>,
    item: Json,
    members: Seq<(Seq<char>, Json)>,
    key: Seq<char>,
)
    ensures
        json_parts(Json::Text(key)) == seq![PartView::Text(key)],
        json_parts(Json::Array(items))[0] == PartView::Items(items.len()),
        json_parts(Json::Array(items.push(item))).len() == json_parts(Json::Array(items)).len()
            + json_parts(item).len(),
        json_parts(Json::Array(items.push(item))).skip(1) == json_parts(Json::Array(items)).skip(1)
            + json_parts(item),
        json_parts(Json::Object(members.push((key, item)))) == json_parts(Json::Object(members))
            + seq![PartView::Text(key)] + json_parts(item),
        json_parts(Json::Object(Seq::empty())).len() == 0,
        item is Null || item is Bool || item is Number ==> json_parts(item).len() == 0,
{
    let more = items.push(item);
    assert(more.subrange(0, more.len() - 1) =~= items);
    let longer = members.push((key, item));
    assert(longer.subrange(0, longer.len() - 1) =~= members);
    assert(json_parts(Json::Array(more)).skip(1) =~= json_parts(Json::Array(items)).skip(1)
        + json_parts(item));
}

} // verus!
