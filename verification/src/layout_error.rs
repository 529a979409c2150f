//! Why a type layout was not accepted.

use vstd::prelude::*;
use vstd::string::StringExecFns;

use crate::text::{append_decimal, append_hexadecimal};

verus! {

/// The reasons for which a layout, a record or a registration is refused.
#[derive(Clone, Copy, Debug, PartialEq, Eq, Structural)]
pub enum TypeLayoutError {
    /// A record header was not given exactly the bytes of one header.
    HeaderLengthMismatch,
    /// The reserved halfword of a record header is not zero.
    ReservedHeaderField,
    /// The padding at the end of a record header is not zero.
    ReservedHeaderPadding,
    /// A field entry was not given exactly the bytes of one entry.
    FieldEntryLengthMismatch,
    /// The padding at the end of a field entry is not zero.
    FieldEntryReservedPadding,
    /// No type kind has this number.
    UnknownTypeKind { kind: u16 },
    /// No trace slot kind has this number.
    UnknownTraceSlotKind { raw: u8 },
    /// The element kind of a record header is no trace slot kind.
    InvalidHeaderElementKind { raw: u8 },
    /// The buffer does not hold a whole record header.
    RecordTooShort,
    /// The buffer ends before the record that its header announces.
    BufferShorterThanRecord,
    /// Bytes are left over behind the record.
    TrailingBytes,
    /// The record does not start with the magic number.
    InvalidMagic,
    /// The layout id is zero.
    ZeroId,
    /// A struct record names a reference as its element kind.
    StructElementKind,
    /// An array record announces field entries.
    ArrayHasFields,
    /// A scalar record announces field entries.
    ScalarHasFields,
    /// A scalar record names a reference as its element kind.
    ScalarElementKind,
    /// A scalar record has a body size.
    ScalarBodySize,
    /// More fields than a record may hold.
    FieldCountExceedsMaximum,
    /// A record longer than the format allows.
    RecordLengthExceedsMaximum,
    /// The announced length is not that of the announced fields.
    RecordLengthMismatch,
    /// Another layout is registered under this id.
    ConflictingLayout { id: u32 },
    /// The fingerprint is registered for a layout of another shape.
    IncompatibleFingerprint { fingerprint: u64, id: u32 },
}

impl TypeLayoutError {
    /// The text of the error.
    pub open spec fn message(self) -> Seq<char> {
        match self {
            TypeLayoutError::HeaderLengthMismatch => "persistent type layout record header length mismatch"@,
            TypeLayoutError::ReservedHeaderField => "persistent type layout record reserved header field must be zero"@,
            TypeLayoutError::ReservedHeaderPadding => "persistent type layout record reserved header padding must be zero"@,
            TypeLayoutError::FieldEntryLengthMismatch => "persistent type layout field entry length mismatch"@,
            TypeLayoutError::FieldEntryReservedPadding => "persistent type layout field entry reserved padding must be zero"@,
            TypeLayoutError::UnknownTypeKind { kind } => "unknown persistent type kind in record header: "@
                + crate::text::decimal(kind as nat),
            TypeLayoutError::UnknownTraceSlotKind { raw } => "unknown trace slot kind in record field entry: "@
                + crate::text::decimal(raw as nat),
            TypeLayoutError::InvalidHeaderElementKind { .. } => "invalid persistent type layout header element kind"@,
            TypeLayoutError::RecordTooShort => "persistent type layout record is shorter than expected"@,
            TypeLayoutError::BufferShorterThanRecord => "persistent type layout buffer is shorter than one full record"@,
            TypeLayoutError::TrailingBytes => "persistent type layout record length mismatch"@,
            TypeLayoutError::InvalidMagic => "persistent type layout record has invalid magic"@,
            TypeLayoutError::ZeroId => "persistent type layout id cannot be zero"@,
            TypeLayoutError::StructElementKind => "persistent struct type layout header element kind must be scalar"@,
            TypeLayoutError::ArrayHasFields => "persistent array type layout must not contain field entries"@,
            TypeLayoutError::ScalarHasFields => "persistent scalar type layout must not contain field entries"@,
            TypeLayoutError::ScalarElementKind => "persistent scalar type layout header element kind must be scalar"@,
            TypeLayoutError::ScalarBodySize => "persistent scalar type layout header body size must be zero"@,
            TypeLayoutError::FieldCountExceedsMaximum => "persistent type layout field count exceeds maximum"@,
            TypeLayoutError::RecordLengthExceedsMaximum => "persistent type layout record length exceeds maximum"@,
            TypeLayoutError::RecordLengthMismatch => "persistent type layout record length does not match field count"@,
            TypeLayoutError::ConflictingLayout { id } => "conflicting persistent type layout for id "@
                + crate::text::decimal(id as nat),
            TypeLayoutError::IncompatibleFingerprint { fingerprint, id } => "persistent type layout fingerprint "@
                + crate::text::hexadecimal(fingerprint as nat)
                + " is already registered to incompatible layout id "@ + crate::text::decimal(
                id as nat,
            ),
        }
    }

    /// The text of the error.
    pub fn to_string(&self) -> (text: String)
        ensures
            text@ == self.message(),
    {
        match self {
            TypeLayoutError::HeaderLengthMismatch => String::from_str("persistent type layout record header length mismatch"),
            TypeLayoutError::ReservedHeaderField => String::from_str("persistent type layout record reserved header field must be zero"),
            TypeLayoutError::ReservedHeaderPadding => String::from_str("persistent type layout record reserved header padding must be zero"),
            TypeLayoutError::FieldEntryLengthMismatch => String::from_str("persistent type layout field entry length mismatch"),
            TypeLayoutError::FieldEntryReservedPadding => String::from_str("persistent type layout field entry reserved padding must be zero"),
            TypeLayoutError::UnknownTypeKind { kind } => {
                let mut text = String::from_str("unknown persistent type kind in record header: ");
                append_decimal(&mut text, *kind as u64);
                text
            },
            TypeLayoutError::UnknownTraceSlotKind { raw } => {
                let mut text = String::from_str("unknown trace slot kind in record field entry: ");
                append_decimal(&mut text, *raw as u64);
                text
            },
            TypeLayoutError::InvalidHeaderElementKind { .. } => String::from_str("invalid persistent type layout header element kind"),
            TypeLayoutError::RecordTooShort => String::from_str("persistent type layout record is shorter than expected"),
            TypeLayoutError::BufferShorterThanRecord => String::from_str("persistent type layout buffer is shorter than one full record"),
            TypeLayoutError::TrailingBytes => String::from_str("persistent type layout record length mismatch"),
            TypeLayoutError::InvalidMagic => String::from_str("persistent type layout record has invalid magic"),
            TypeLayoutError::ZeroId => String::from_str("persistent type layout id cannot be zero"),
            TypeLayoutError::StructElementKind => String::from_str("persistent struct type layout header element kind must be scalar"),
            TypeLayoutError::ArrayHasFields => String::from_str("persistent array type layout must not contain field entries"),
            TypeLayoutError::ScalarHasFields => String::from_str("persistent scalar type layout must not contain field entries"),
            TypeLayoutError::ScalarElementKind => String::from_str("persistent scalar type layout header element kind must be scalar"),
            TypeLayoutError::ScalarBodySize => String::from_str("persistent scalar type layout header body size must be zero"),
            TypeLayoutError::FieldCountExceedsMaximum => String::from_str("persistent type layout field count exceeds maximum"),
            TypeLayoutError::RecordLengthExceedsMaximum => String::from_str("persistent type layout record length exceeds maximum"),
            TypeLayoutError::RecordLengthMismatch => String::from_str("persistent type layout record length does not match field count"),
            TypeLayoutError::ConflictingLayout { id } => {
                let mut text = String::from_str("conflicting persistent type layout for id ");
                append_decimal(&mut text, *id as u64);
                text
            },
            TypeLayoutError::IncompatibleFingerprint { fingerprint, id } => {
                let mut text = String::from_str("persistent type layout fingerprint ");
                append_hexadecimal(&mut text, *fingerprint);
                text.append(" is already registered to incompatible layout id ");
                append_decimal(&mut text, *id as u64);
                text
            },
        }
    }
}

/// The texts that say a number end in it: written out, it reads back as the number.
pub proof fn law_texts_carry_their_numbers(kind: u16, raw: u8, id: u32, fingerprint: u64)
    ensures
        exists|digits: Seq<char>|
            {
                &&& (TypeLayoutError::UnknownTypeKind { kind }).message()
                    == "unknown persistent type kind in record header: "@ + digits
                &&& #[trigger] crate::text::read_digits(digits, 10) == kind
            },
        exists|digits: Seq<char>|
            {
                &&& (TypeLayoutError::UnknownTraceSlotKind { raw }).message()
                    == "unknown trace slot kind in record field entry: "@ + digits
                &&& #[trigger] crate::text::read_digits(digits, 10) == raw
            },
        exists|digits: Seq<char>|
            {
                &&& (TypeLayoutError::ConflictingLayout { id }).message()
                    == "conflicting persistent type layout for id "@ + digits
                &&& #[trigger] crate::text::read_digits(digits, 10) == id
            },
        exists|first: Seq<char>, second: Seq<char>|
            {
                &&& (TypeLayoutError::IncompatibleFingerprint { fingerprint, id }).message()
                    == "persistent type layout fingerprint 0x"@ + first
                    + " is already registered to incompatible layout id "@ + second
                &&& #[trigger] crate::text::read_digits(first, 16) == fingerprint
                &&& #[trigger] crate::text::read_digits(second, 10) == id
            },
{
    crate::text::law_digits_read_back(kind as nat, 10);
    crate::text::law_digits_read_back(raw as nat, 10);
    crate::text::law_digits_read_back(id as nat, 10);
    crate::text::law_digits_read_back(fingerprint as nat, 16);
    reveal_strlit("persistent type layout fingerprint 0x");
    reveal_strlit("persistent type layout fingerprint ");
    let first = crate::text::digits(fingerprint as nat, 16);
    assert("persistent type layout fingerprint "@ + crate::text::hexadecimal(fingerprint as nat)
        =~= "persistent type layout fingerprint 0x"@ + first);
}

} // verus!
