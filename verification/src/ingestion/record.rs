//! Normalized records: the rows that were accepted and the records that were not.

use vstd::prelude::*;
use vstd::utf8::{decode_utf8, encode_utf8, encode_utf8_decode_utf8, is_char_boundary, valid_utf8};

use crate::calendar::{day_of, utc_day, utc_representable};
use crate::codec::{be_bytes, push_be, push_bytes};
use crate::digest::{blake3_digest, digest};
use crate::identity::{BatchId, FieldId};
use crate::ingestion::model::{BatchMetadata, IngestionTime};
use crate::json::{member_value, Json, JsonObject, JsonValue};
use crate::text::{base64_encode, base64_text, utf8_text};

verus! {

/// How many bytes of a rejected record are kept at most.
pub const DEAD_LETTER_PAYLOAD_PREFIX_BYTES: usize = 4096;

/// Where a record stands in its batch.
#[derive(Clone, Copy, Debug, PartialEq, Eq, Hash, Structural)]
pub struct RecordLocation {
    pub line_number: u64,
    pub input_position: u64,
}

impl RecordLocation {
    pub fn new(line_number: u64, input_position: u64) -> (r: Self)
        ensures
            r == (RecordLocation { line_number, input_position }),
    {
        RecordLocation { line_number, input_position }
    }

    pub fn line_number(self) -> (r: u64)
        ensures
            r == self.line_number,
    {
        self.line_number
    }

    pub fn input_position(self) -> (r: u64)
        ensures
            r == self.input_position,
    {
        self.input_position
    }
}

/// The instant at which an event happened. A UTC date-time can hold it.
#[derive(Clone, Copy, Debug, PartialEq, Eq, PartialOrd, Ord, Hash, Structural)]
pub struct EventTime {
    pub(crate) milliseconds: i64,
}

impl EventTime {
    #[verifier::type_invariant]
    pub(crate) open(crate) spec fn valid(self) -> bool {
        utc_representable(self.milliseconds as int)
    }

    pub open(crate) spec fn spec_milliseconds(self) -> i64 {
        self.milliseconds
    }

    pub fn from_unix_milliseconds(value: i64) -> (r: Option<Self>)
        ensures
            r is Some <==> utc_representable(value as int),
            r matches Some(time) ==> time.spec_milliseconds() == value,
    {
        match day_of(value) {
            Some(_) => Some(EventTime { milliseconds: value }),
            None => None,
        }
    }

    pub fn unix_milliseconds(self) -> (r: i64)
        ensures
            r == self.spec_milliseconds(),
            utc_representable(r as int),
    {
        proof {
            use_type_invariant(&self);
        }
        self.milliseconds
    }

    /// The day, counted from the Unix epoch, that the instant falls on.
    pub fn day(self) -> (r: i32)
        ensures
            r == utc_day(self.spec_milliseconds() as int),
    {
        let milliseconds: i64 = self.unix_milliseconds();
        match day_of(milliseconds) {
            Some(day) => day,
            None => 0,
        }
    }
}

/// The bytes that are hashed in front of a batch's identity and a position.
pub open spec fn event_id_domain() -> Seq<u8> {
    seq![101u8, 108, 117, 99, 105, 100, 58, 101, 118, 101, 110, 116, 0]
}

/// The identity of the event that starts at a position of a batch.
pub open spec fn occurrence_id(batch: u128, position: u64) -> Seq<u8> {
    blake3_digest(
        event_id_domain() + be_bytes(batch as int, 16) + be_bytes(position as int, 8),
    )@.subrange(0, 16)
}

/// The identity of an event.
#[derive(Clone, Copy, Debug, PartialEq, Eq, PartialOrd, Ord, Hash)]
pub struct EventId {
    pub bytes: [u8; 16],
}

impl EventId {
    pub fn for_occurrence(batch_id: BatchId, input_position: u64) -> (r: Self)
        ensures
            r.bytes@ == occurrence_id(batch_id.spec_value(), input_position),
    {
        let domain: [u8; 13] = [101, 108, 117, 99, 105, 100, 58, 101, 118, 101, 110, 116, 0];
        let mut hashed: Vec<u8> = Vec::new();
        push_bytes(&mut hashed, &domain);
        push_be(&mut hashed, batch_id.as_u128(), 16);
        push_be(&mut hashed, input_position as u128, 8);
        assert(domain@ =~= event_id_domain());
        assert(hashed@ =~= event_id_domain() + be_bytes(batch_id.spec_value() as int, 16)
            + be_bytes(input_position as int, 8));
        let hash: [u8; 32] = digest(hashed.as_slice());
        let mut bytes: [u8; 16] = [0u8; 16];
        let mut index: usize = 0;
        while index < 16
            invariant
                index <= 16,
                forall|i: int| 0 <= i < index ==> #[trigger] bytes@[i] == hash@[i],
            decreases 16 - index,
        {
            bytes[index] = hash[index];
            index = index + 1;
        }
        assert(bytes@ =~= hash@.subrange(0, 16));
        EventId { bytes }
    }

    pub fn as_bytes(&self) -> (r: &[u8; 16])
        ensures
            r@ == self.bytes@,
    {
        &self.bytes
    }
}

/// The digest of a rejected record.
#[derive(Clone, Copy, Debug, PartialEq, Eq, Hash)]
pub struct RecordPayloadDigest {
    pub bytes: [u8; 32],
}

impl RecordPayloadDigest {
    pub fn calculate(bytes: &[u8]) -> (r: Self)
        ensures
            r.bytes == blake3_digest(bytes@),
    {
        RecordPayloadDigest { bytes: digest(bytes) }
    }

    pub fn as_bytes(&self) -> (r: &[u8; 32])
        ensures
            r@ == self.bytes@,
    {
        &self.bytes
    }
}

/// The value of a field. A floating-point value is kept as the decimal numeral from which it is
/// rounded, and is finite.
#[derive(Debug, PartialEq, Eq)]
pub enum NormalizedValue {
    Null,
    Bool(bool),
    Int32(i32),
    Int64(i64),
    UInt32(u32),
    UInt64(u64),
    Float32(String),
    Float64(String),
    Utf8(String),
    Datetime(i64),
}

/// What the value of a field is.
pub enum ValueView {
    Null,
    Bool(bool),
    Int32(i32),
    Int64(i64),
    UInt32(u32),
    UInt64(u64),
    Float32(Seq<char>),
    Float64(Seq<char>),
    Utf8(Seq<char>),
    Datetime(i64),
}

impl View for NormalizedValue {
    type V = ValueView;

    open spec fn view(&self) -> ValueView {
        match self {
            NormalizedValue::Null => ValueView::Null,
            NormalizedValue::Bool(value) => ValueView::Bool(*value),
            NormalizedValue::Int32(value) => ValueView::Int32(*value),
            NormalizedValue::Int64(value) => ValueView::Int64(*value),
            NormalizedValue::UInt32(value) => ValueView::UInt32(*value),
            NormalizedValue::UInt64(value) => ValueView::UInt64(*value),
            NormalizedValue::Float32(text) => ValueView::Float32(text@),
            NormalizedValue::Float64(text) => ValueView::Float64(text@),
            NormalizedValue::Utf8(text) => ValueView::Utf8(text@),
            NormalizedValue::Datetime(value) => ValueView::Datetime(*value),
        }
    }
}

/// A field of an accepted row.
#[derive(Debug, PartialEq, Eq)]
pub struct NormalizedField {
    pub field_id: FieldId,
    pub value: NormalizedValue,
}

impl NormalizedField {
    pub fn field_id(&self) -> (r: FieldId)
        ensures
            r == self.field_id,
    {
        self.field_id
    }

    pub fn value(&self) -> (r: &NormalizedValue)
        ensures
            r == self.value,
    {
        &self.value
    }
}

/// What the fields of a row are.
pub open spec fn field_views(fields: Seq<NormalizedField>) -> Seq<(FieldId, ValueView)> {
    Seq::new(fields.len(), |i: int| (fields[i].field_id, fields[i].value@))
}

impl JsonObject {
    /// The value of the member with this key.
    pub fn get(&self, key: &str) -> (r: Option<&JsonValue>)
        ensures
            match r {
                Some(value) => member_value(self@, key@) == Some(value.model()),
                None => member_value(self@, key@) is None,
            },
    {
        let wanted: String = key.to_owned();
        crate::json::find_member(&self.members, &wanted)
    }
}

/// A record that became a row.
#[derive(Debug)]
pub struct AcceptedRow {
    pub location: RecordLocation,
    pub event_time: EventTime,
    pub ingestion_time: IngestionTime,
    pub event_id: EventId,
    pub fields: Vec<NormalizedField>,
    pub remainder: Option<JsonObject>,
}

/// What an accepted row is.
#[verifier::ext_equal]
pub struct RowView {
    pub location: RecordLocation,
    pub event_time: i64,
    pub ingestion_time: IngestionTime,
    pub event_id: Seq<u8>,
    pub fields: Seq<(FieldId, ValueView)>,
    pub remainder: Option<Seq<(Seq<char>, Json)>>,
}

impl View for AcceptedRow {
    type V = RowView;

    open spec fn view(&self) -> RowView {
        RowView {
            location: self.location,
            event_time: self.event_time.spec_milliseconds(),
            ingestion_time: self.ingestion_time,
            event_id: self.event_id.bytes@,
            fields: field_views(self.fields@),
            remainder: match self.remainder {
                Some(object) => Some(object@),
                None => None,
            },
        }
    }
}

impl AcceptedRow {
    pub fn location(&self) -> (r: RecordLocation)
        ensures
            r == self.location,
    {
        self.location
    }

    pub fn event_time(&self) -> (r: EventTime)
        ensures
            r == self.event_time,
    {
        self.event_time
    }

    pub fn ingestion_time(&self) -> (r: IngestionTime)
        ensures
            r == self.ingestion_time,
    {
        self.ingestion_time
    }

    pub fn event_id(&self) -> (r: EventId)
        ensures
            r == self.event_id,
    {
        self.event_id
    }

    pub fn fields(&self) -> (r: &Vec<NormalizedField>)
        ensures
            r == self.fields,
    {
        &self.fields
    }

    pub fn remainder(&self) -> (r: Option<&JsonObject>)
        ensures
            match self.remainder {
                Some(object) => r == Some(&object),
                None => r is None,
            },
    {
        match &self.remainder {
            Some(object) => Some(object),
            None => None,
        }
    }
}

/// Why a record was rejected.
#[derive(Clone, Copy, Debug, PartialEq, Eq, Hash, Structural)]
pub enum DeadLetterCode {
    InvalidUtf8,
    TooLarge,
    ParseFailed,
    FieldMissing,
    FieldNull,
    ConversionFailed,
    EventTimeInvalid,
    EventDayLimitExceeded,
}

impl DeadLetterCode {
    pub fn as_str(self) -> (r: &'static str)
        ensures
            r@ == match self {
                DeadLetterCode::InvalidUtf8 => "RECORD_INVALID_UTF8"@,
                DeadLetterCode::TooLarge => "RECORD_TOO_LARGE"@,
                DeadLetterCode::ParseFailed => "RECORD_PARSE_FAILED"@,
                DeadLetterCode::FieldMissing => "RECORD_FIELD_MISSING"@,
                DeadLetterCode::FieldNull => "RECORD_FIELD_NULL"@,
                DeadLetterCode::ConversionFailed => "RECORD_CONVERSION_FAILED"@,
                DeadLetterCode::EventTimeInvalid => "RECORD_EVENT_TIME_INVALID"@,
                DeadLetterCode::EventDayLimitExceeded => "RECORD_EVENT_DAY_LIMIT_EXCEEDED"@,
            },
    {
        match self {
            DeadLetterCode::InvalidUtf8 => "RECORD_INVALID_UTF8",
            DeadLetterCode::TooLarge => "RECORD_TOO_LARGE",
            DeadLetterCode::ParseFailed => "RECORD_PARSE_FAILED",
            DeadLetterCode::FieldMissing => "RECORD_FIELD_MISSING",
            DeadLetterCode::FieldNull => "RECORD_FIELD_NULL",
            DeadLetterCode::ConversionFailed => "RECORD_CONVERSION_FAILED",
            DeadLetterCode::EventTimeInvalid => "RECORD_EVENT_TIME_INVALID",
            DeadLetterCode::EventDayLimitExceeded => "RECORD_EVENT_DAY_LIMIT_EXCEEDED",
        }
    }

    pub open spec fn spec_message(self) -> Seq<char> {
        match self {
            DeadLetterCode::InvalidUtf8 => "record is not valid UTF-8"@,
            DeadLetterCode::TooLarge => "record exceeds the pinned profile byte limit"@,
            DeadLetterCode::ParseFailed
                => "record is not exactly one JSON object with unique keys"@,
            DeadLetterCode::FieldMissing => "a required mapped field is absent"@,
            DeadLetterCode::FieldNull => "a required mapped field is null"@,
            DeadLetterCode::ConversionFailed
                => "a mapped field cannot be converted to its declared type"@,
            DeadLetterCode::EventTimeInvalid => "event time is absent, null, or invalid"@,
            DeadLetterCode::EventDayLimitExceeded
                => "record introduces too many distinct event days"@,
        }
    }

    pub fn message(self) -> (r: &'static str)
        ensures
            r@ == self.spec_message(),
    {
        match self {
            DeadLetterCode::InvalidUtf8 => "record is not valid UTF-8",
            DeadLetterCode::TooLarge => "record exceeds the pinned profile byte limit",
            DeadLetterCode::ParseFailed => "record is not exactly one JSON object with unique keys",
            DeadLetterCode::FieldMissing => "a required mapped field is absent",
            DeadLetterCode::FieldNull => "a required mapped field is null",
            DeadLetterCode::ConversionFailed
                => "a mapped field cannot be converted to its declared type",
            DeadLetterCode::EventTimeInvalid => "event time is absent, null, or invalid",
            DeadLetterCode::EventDayLimitExceeded
                => "record introduces too many distinct event days",
        }
    }
}

/// How the kept bytes of a rejected record are written.
#[derive(Clone, Copy, Debug, PartialEq, Eq, Hash, Structural)]
pub enum PayloadEncoding {
    Utf8,
    Base64,
}

/// Whether all bytes of a rejected record were kept.
#[derive(Clone, Copy, Debug, PartialEq, Eq, Hash, Structural)]
pub enum PayloadExtent {
    Complete,
    Prefix,
}

/// What is kept of a rejected record.
#[derive(Debug, PartialEq, Eq)]
pub struct DeadLetterPayload {
    pub content: String,
    pub encoding: PayloadEncoding,
    pub extent: PayloadExtent,
}

/// What a payload holds.
pub struct PayloadView {
    pub content: Seq<char>,
    pub encoding: PayloadEncoding,
    pub extent: PayloadExtent,
}

impl View for DeadLetterPayload {
    type V = PayloadView;

    open spec fn view(&self) -> PayloadView {
        PayloadView { content: self.content@, encoding: self.encoding, extent: self.extent }
    }
}

/// The last position, up to `at`, at which a character starts or the text ends.
pub open spec fn character_boundary(bytes: Seq<u8>, at: int) -> int
    decreases at,
{
    if at <= 0 || is_char_boundary(bytes, at) {
        at
    } else {
        character_boundary(bytes, at - 1)
    }
}

/// How many bytes of a record are kept, before a character is cut.
pub open spec fn kept_bytes(record: Seq<u8>) -> int {
    if record.len() <= DEAD_LETTER_PAYLOAD_PREFIX_BYTES {
        record.len() as int
    } else {
        DEAD_LETTER_PAYLOAD_PREFIX_BYTES as int
    }
}

/// What is kept of a record.
pub open spec fn payload_of(record: Seq<u8>) -> PayloadView {
    PayloadView {
        content: if valid_utf8(record) {
            decode_utf8(record.subrange(0, character_boundary(record, kept_bytes(record))))
        } else {
            base64_text(record.subrange(0, kept_bytes(record)))
        },
        encoding: if valid_utf8(record) {
            PayloadEncoding::Utf8
        } else {
            PayloadEncoding::Base64
        },
        extent: if record.len() <= DEAD_LETTER_PAYLOAD_PREFIX_BYTES {
            PayloadExtent::Complete
        } else {
            PayloadExtent::Prefix
        },
    }
}

impl DeadLetterPayload {
    pub fn from_record(record: &[u8]) -> (r: Self)
        ensures
            r@ == payload_of(record@),
    {
        let available: usize = record.len();
        let complete: bool = available <= DEAD_LETTER_PAYLOAD_PREFIX_BYTES;
        let extent: PayloadExtent = if complete {
            PayloadExtent::Complete
        } else {
            PayloadExtent::Prefix
        };
        let prefix_bytes: usize = if complete {
            available
        } else {
            DEAD_LETTER_PAYLOAD_PREFIX_BYTES
        };
        match utf8_text(record) {
            Some(text) => {
                let mut prefix_end: usize = prefix_bytes;
                proof {
                    vstd::utf8::is_char_boundary_start_end_of_seq(record@);
                }
                while !text.is_char_boundary(prefix_end)
                    invariant
                        prefix_end <= prefix_bytes <= record@.len(),
                        encode_utf8(text@) == record@,
                        is_char_boundary(record@, 0),
                        character_boundary(record@, prefix_bytes as int) == character_boundary(
                            record@,
                            prefix_end as int,
                        ),
                    decreases prefix_end,
                {
                    prefix_end = prefix_end - 1;
                }
                let (kept, _) = text.split_at(prefix_end);
                proof {
                    encode_utf8_decode_utf8(kept@);
                    assert(encode_utf8(kept@) =~= record@.subrange(0, prefix_end as int));
                }
                DeadLetterPayload {
                    content: kept.to_owned(),
                    encoding: PayloadEncoding::Utf8,
                    extent,
                }
            },
            None => DeadLetterPayload {
                content: base64_encode(vstd::slice::slice_subrange(record, 0, prefix_bytes)),
                encoding: PayloadEncoding::Base64,
                extent,
            },
        }
    }

    pub fn content(&self) -> (r: &str)
        ensures
            r@ == self.content@,
    {
        self.content.as_str()
    }

    pub fn encoding(&self) -> (r: PayloadEncoding)
        ensures
            r == self.encoding,
    {
        self.encoding
    }

    pub fn extent(&self) -> (r: PayloadExtent)
        ensures
            r == self.extent,
    {
        self.extent
    }
}

/// A record that was rejected.
#[derive(Debug, PartialEq, Eq)]
pub struct DeadLetterEntry {
    pub batch_id: BatchId,
    pub location: RecordLocation,
    pub code: DeadLetterCode,
    pub payload_byte_count: u64,
    pub payload_digest: RecordPayloadDigest,
    pub payload: DeadLetterPayload,
}

/// What a rejected record is.
pub struct DeadLetterView {
    pub batch_id: BatchId,
    pub location: RecordLocation,
    pub code: DeadLetterCode,
    pub payload_byte_count: u64,
    pub payload_digest: [u8; 32],
    pub payload: PayloadView,
}

impl View for DeadLetterEntry {
    type V = DeadLetterView;

    open spec fn view(&self) -> DeadLetterView {
        DeadLetterView {
            batch_id: self.batch_id,
            location: self.location,
            code: self.code,
            payload_byte_count: self.payload_byte_count,
            payload_digest: self.payload_digest.bytes,
            payload: self.payload@,
        }
    }
}

/// What becomes of a record that is rejected.
pub open spec fn dead_letter_of(
    batch_id: BatchId,
    location: RecordLocation,
    code: DeadLetterCode,
    record: Seq<u8>,
) -> DeadLetterView {
    DeadLetterView {
        batch_id,
        location,
        code,
        payload_byte_count: record.len() as u64,
        payload_digest: blake3_digest(record),
        payload: payload_of(record),
    }
}

impl DeadLetterEntry {
    pub fn new(
        batch_id: BatchId,
        location: RecordLocation,
        code: DeadLetterCode,
        record: &[u8],
    ) -> (r: Self)
        ensures
            r@ == dead_letter_of(batch_id, location, code, record@),
    {
        DeadLetterEntry {
            batch_id,
            location,
            code,
            payload_byte_count: record.len() as u64,
            payload_digest: RecordPayloadDigest::calculate(record),
            payload: DeadLetterPayload::from_record(record),
        }
    }

    pub fn batch_id(&self) -> (r: BatchId)
        ensures
            r == self.batch_id,
    {
        self.batch_id
    }

    pub fn location(&self) -> (r: RecordLocation)
        ensures
            r == self.location,
    {
        self.location
    }

    pub fn code(&self) -> (r: DeadLetterCode)
        ensures
            r == self.code,
    {
        self.code
    }

    pub fn message(&self) -> (r: &'static str)
        ensures
            r@ == self.code.spec_message(),
    {
        self.code.message()
    }

    pub fn payload_byte_count(&self) -> (r: u64)
        ensures
            r == self.payload_byte_count,
    {
        self.payload_byte_count
    }

    pub fn payload_digest(&self) -> (r: RecordPayloadDigest)
        ensures
            r == self.payload_digest,
    {
        self.payload_digest
    }

    pub fn payload(&self) -> (r: &DeadLetterPayload)
        ensures
            r == self.payload,
    {
        &self.payload
    }
}

/// A record after normalization.
#[derive(Debug)]
pub enum NormalizedRecord {
    Accepted(AcceptedRow),
    DeadLetter(DeadLetterEntry),
}

/// What a record became.
pub enum OutcomeView {
    Accepted(RowView),
    DeadLetter(DeadLetterView),
}

impl OutcomeView {
    pub open spec fn location(self) -> RecordLocation {
        match self {
            OutcomeView::Accepted(row) => row.location,
            OutcomeView::DeadLetter(entry) => entry.location,
        }
    }
}

impl View for NormalizedRecord {
    type V = OutcomeView;

    open spec fn view(&self) -> OutcomeView {
        match self {
            NormalizedRecord::Accepted(row) => OutcomeView::Accepted(row@),
            NormalizedRecord::DeadLetter(entry) => OutcomeView::DeadLetter(entry@),
        }
    }
}

/// What records became.
pub open spec fn record_views(records: Seq<NormalizedRecord>) -> Seq<OutcomeView> {
    Seq::new(records.len(), |i: int| records[i]@)
}

/// A batch after normalization.
#[derive(Debug)]
pub struct NormalizedBatch {
    pub metadata: BatchMetadata,
    pub records: Vec<NormalizedRecord>,
    pub ignored_records: u64,
}

/// What a normalized batch is.
#[verifier::ext_equal]
pub struct BatchView {
    pub metadata: BatchMetadata,
    pub records: Seq<OutcomeView>,
    pub ignored_records: nat,
}

impl View for NormalizedBatch {
    type V = BatchView;

    open spec fn view(&self) -> BatchView {
        BatchView {
            metadata: self.metadata,
            records: record_views(self.records@),
            ignored_records: self.ignored_records as nat,
        }
    }
}

impl NormalizedBatch {
    pub fn metadata(&self) -> (r: BatchMetadata)
        ensures
            r == self.metadata,
    {
        self.metadata
    }

    pub fn records(&self) -> (r: &Vec<NormalizedRecord>)
        ensures
            r == self.records,
    {
        &self.records
    }

    pub fn ignored_records(&self) -> (r: u64)
        ensures
            r == self.ignored_records,
    {
        self.ignored_records
    }

    pub fn into_records(self) -> (r: Vec<NormalizedRecord>)
        ensures
            r == self.records,
    {
        self.records
    }
}

} // verus!
