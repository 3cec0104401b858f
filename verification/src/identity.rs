//! Identities.

use vstd::prelude::*;

verus! {

/// Whether a 128-bit identity has the version and the variant of a time-ordered UUID.
pub open spec fn is_uuid_v7(value: u128) -> bool {
    &&& (value / 0x1000_0000_0000_0000_0000) % 16 == 7
    &&& (value / 0x4000_0000_0000_0000) % 4 == 2
}

/// Tests the version and the variant of an identity.
pub fn check_uuid_v7(value: u128) -> (r: bool)
    ensures
        r == is_uuid_v7(value),
{
    (value / 0x1000_0000_0000_0000_0000) % 16 == 7 && (value / 0x4000_0000_0000_0000) % 4 == 2
}

/// The identity that a text spells.
pub uninterp spec fn uuid_value(text: Seq<char>) -> Option<u128>;

/// The hyphenated text of an identity.
pub uninterp spec fn uuid_text(value: u128) -> Seq<char>;

/// Calls `uuid::Uuid::parse_str`. Claimed of it: whether the text is accepted, and which identity
/// it spells, depends on the text alone.
#[verifier::external_body]
pub(crate) fn parse_uuid(text: &str) -> (value: Option<u128>)
    ensures
        value == uuid_value(text@),
{
    uuid::Uuid::parse_str(text).ok().map(|id| id.as_u128())
}

/// Calls the `to_string` of `uuid::Uuid`. Claimed of it: the text depends on the identity alone,
/// and parsing it gives the identity back.
#[verifier::external_body]
pub(crate) fn format_uuid(value: u128) -> (text: String)
    ensures
        text@ == uuid_text(value),
        uuid_value(text@) == Some(value),
{
    uuid::Uuid::from_u128(value).to_string()
}

/// Why a 128-bit value is not an identity.
#[derive(Clone, Copy, Debug, PartialEq, Eq, Structural)]
pub enum IdentityError {
    NotUuidV7,
}

/// The identity of a batch of records.
#[derive(Clone, Copy, Debug, PartialEq, Eq, PartialOrd, Ord, Hash, Structural)]
pub struct BatchId {
    pub(crate) value: u128,
}

impl BatchId {
    #[verifier::type_invariant]
    pub(crate) open(crate) spec fn valid(self) -> bool {
        is_uuid_v7(self.value)
    }

    pub open(crate) spec fn spec_value(self) -> u128 {
        self.value
    }

    /// Accepts a time-ordered UUID.
    pub fn new(value: u128) -> (r: Result<Self, IdentityError>)
        ensures
            r is Ok <==> is_uuid_v7(value),
            r matches Ok(id) ==> id.spec_value() == value,
    {
        if check_uuid_v7(value) {
            Ok(BatchId { value })
        } else {
            Err(IdentityError::NotUuidV7)
        }
    }

    pub fn as_u128(self) -> (r: u128)
        ensures
            r == self.spec_value(),
            is_uuid_v7(r),
    {
        proof {
            use_type_invariant(&self);
        }
        self.value
    }
}

/// The identity of a source.
#[derive(Clone, Copy, Debug, PartialEq, Eq, PartialOrd, Ord, Hash, Structural)]
pub struct SourceId {
    pub(crate) value: u128,
}

impl SourceId {
    #[verifier::type_invariant]
    pub(crate) open(crate) spec fn valid(self) -> bool {
        is_uuid_v7(self.value)
    }

    pub open(crate) spec fn spec_value(self) -> u128 {
        self.value
    }

    /// Accepts a time-ordered UUID.
    pub fn new(value: u128) -> (r: Result<Self, IdentityError>)
        ensures
            r is Ok <==> is_uuid_v7(value),
            r matches Ok(id) ==> id.spec_value() == value,
    {
        if check_uuid_v7(value) {
            Ok(SourceId { value })
        } else {
            Err(IdentityError::NotUuidV7)
        }
    }

    pub fn as_u128(self) -> (r: u128)
        ensures
            r == self.spec_value(),
            is_uuid_v7(r),
    {
        proof {
            use_type_invariant(&self);
        }
        self.value
    }
}

/// The identity of an input of a source.
#[derive(Clone, Copy, Debug, PartialEq, Eq, PartialOrd, Ord, Hash, Structural)]
pub struct InputId {
    pub(crate) value: u128,
}

impl InputId {
    #[verifier::type_invariant]
    pub(crate) open(crate) spec fn valid(self) -> bool {
        is_uuid_v7(self.value)
    }

    pub open(crate) spec fn spec_value(self) -> u128 {
        self.value
    }

    /// Accepts a time-ordered UUID.
    pub fn new(value: u128) -> (r: Result<Self, IdentityError>)
        ensures
            r is Ok <==> is_uuid_v7(value),
            r matches Ok(id) ==> id.spec_value() == value,
    {
        if check_uuid_v7(value) {
            Ok(InputId { value })
        } else {
            Err(IdentityError::NotUuidV7)
        }
    }

    pub fn as_u128(self) -> (r: u128)
        ensures
            r == self.spec_value(),
            is_uuid_v7(r),
    {
        proof {
            use_type_invariant(&self);
        }
        self.value
    }
}

/// The identity of a revision of an ingestion profile.
#[derive(Clone, Copy, Debug, PartialEq, Eq, PartialOrd, Ord, Hash, Structural)]
pub struct IngestionProfileRevisionId {
    pub(crate) value: u128,
}

impl IngestionProfileRevisionId {
    #[verifier::type_invariant]
    pub(crate) open(crate) spec fn valid(self) -> bool {
        is_uuid_v7(self.value)
    }

    pub open(crate) spec fn spec_value(self) -> u128 {
        self.value
    }

    /// Accepts a time-ordered UUID.
    pub fn new(value: u128) -> (r: Result<Self, IdentityError>)
        ensures
            r is Ok <==> is_uuid_v7(value),
            r matches Ok(id) ==> id.spec_value() == value,
    {
        if check_uuid_v7(value) {
            Ok(IngestionProfileRevisionId { value })
        } else {
            Err(IdentityError::NotUuidV7)
        }
    }

    pub fn as_u128(self) -> (r: u128)
        ensures
            r == self.spec_value(),
            is_uuid_v7(r),
    {
        proof {
            use_type_invariant(&self);
        }
        self.value
    }
}

/// The identity of a schema.
#[derive(Clone, Copy, Debug, PartialEq, Eq, PartialOrd, Ord, Hash, Structural)]
pub struct SchemaId {
    pub(crate) value: u128,
}

impl SchemaId {
    #[verifier::type_invariant]
    pub(crate) open(crate) spec fn valid(self) -> bool {
        is_uuid_v7(self.value)
    }

    pub open(crate) spec fn spec_value(self) -> u128 {
        self.value
    }

    /// Accepts a time-ordered UUID.
    pub fn new(value: u128) -> (r: Result<Self, IdentityError>)
        ensures
            r is Ok <==> is_uuid_v7(value),
            r matches Ok(id) ==> id.spec_value() == value,
    {
        if check_uuid_v7(value) {
            Ok(SchemaId { value })
        } else {
            Err(IdentityError::NotUuidV7)
        }
    }

    pub fn as_u128(self) -> (r: u128)
        ensures
            r == self.spec_value(),
            is_uuid_v7(r),
    {
        proof {
            use_type_invariant(&self);
        }
        self.value
    }
}

/// The identity of a field of a schema.
#[derive(Clone, Copy, Debug, PartialEq, Eq, PartialOrd, Ord, Hash, Structural)]
pub struct FieldId {
    pub(crate) value: u128,
}

impl FieldId {
    #[verifier::type_invariant]
    pub(crate) open(crate) spec fn valid(self) -> bool {
        is_uuid_v7(self.value)
    }

    pub open(crate) spec fn spec_value(self) -> u128 {
        self.value
    }

    /// Accepts a time-ordered UUID.
    pub fn new(value: u128) -> (r: Result<Self, IdentityError>)
        ensures
            r is Ok <==> is_uuid_v7(value),
            r matches Ok(id) ==> id.spec_value() == value,
    {
        if check_uuid_v7(value) {
            Ok(FieldId { value })
        } else {
            Err(IdentityError::NotUuidV7)
        }
    }

    pub fn as_u128(self) -> (r: u128)
        ensures
            r == self.spec_value(),
            is_uuid_v7(r),
    {
        proof {
            use_type_invariant(&self);
        }
        self.value
    }
}

/// The identity of a stored segment.
#[derive(Clone, Copy, Debug, PartialEq, Eq, PartialOrd, Ord, Hash, Structural)]
pub struct SegmentId {
    pub value: u128,
}

/// The identity of a stored object.
#[derive(Clone, Copy, Debug, PartialEq, Eq, PartialOrd, Ord, Hash, Structural)]
pub struct StoredObjectId {
    pub value: u128,
}

} // verus!
