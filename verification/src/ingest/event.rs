//! Events: lines before and after normalization.

use vstd::prelude::*;

use crate::json::JsonValue;

verus! {

/// Where an event came from.
pub trait EventContext: Sized {
    fn to_json(&self) -> JsonValue;
}

/// A line, and where it came from.
#[derive(Debug)]
pub struct RawEvent<C: EventContext> {
    pub raw: String,
    pub context: C,
}

/// A row, and where it came from.
#[derive(Debug)]
pub struct Event<C: EventContext> {
    pub row: EventRow,
    pub context: C,
}

/// The values of a row, one for each field of the table.
#[derive(Debug, PartialEq, Eq)]
pub struct EventRow {
    pub values: Vec<EventValue>,
}

/// A value of a row. A floating-point value is kept as the decimal numeral from which it is
/// rounded, and is finite.
#[derive(Debug, PartialEq, Eq)]
pub enum EventValue {
    Null,
    Bool(bool),
    Int64(i64),
    UInt64(u64),
    Float64(String),
    String(String),
    Timestamp(i64),
}

/// What a value of a row is.
pub enum EventValueView {
    Null,
    Bool(bool),
    Int64(i64),
    UInt64(u64),
    Float64(Seq<char>),
    String(Seq<char>),
    Timestamp(i64),
}

impl View for EventValue {
    type V = EventValueView;

    open spec fn view(&self) -> EventValueView {
        match self {
            EventValue::Null => EventValueView::Null,
            EventValue::Bool(value) => EventValueView::Bool(*value),
            EventValue::Int64(value) => EventValueView::Int64(*value),
            EventValue::UInt64(value) => EventValueView::UInt64(*value),
            EventValue::Float64(text) => EventValueView::Float64(text@),
            EventValue::String(text) => EventValueView::String(text@),
            EventValue::Timestamp(value) => EventValueView::Timestamp(*value),
        }
    }
}

/// What the values of a row are.
pub open spec fn value_views(values: Seq<EventValue>) -> Seq<EventValueView> {
    Seq::new(values.len(), |i: int| values[i]@)
}

} // verus!
