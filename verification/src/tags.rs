//! Tag tables: the byte-to-enum maps for value tags (type markers) and
//! delimiter tags (group markers) of the IPP attribute wire format.

use vstd::prelude::*;

verus! {

/// Marker byte identifying the semantic type of an attribute value.
#[derive(Clone, Copy, Debug, PartialEq, Eq, Structural)]
pub enum ValueTag {
    Unsupported,
    Unknown,
    NoValue,
    Integer,
    Boolean,
    Enum,
    OctetStringUnspecified,
    DateTime,
    Resolution,
    RangeOfInteger,
    BegCollection,
    TextWithLanguage,
    NameWithLanguage,
    EndCollection,
    TextWithoutLanguage,
    NameWithoutLanguage,
    Keyword,
    Uri,
    UriScheme,
    Charset,
    NaturalLanguage,
    MimeMediaType,
    MemberAttrName,
}

/// Marker byte introducing an attribute group or terminating the attribute
/// section of a message.
#[derive(Clone, Copy, Debug, PartialEq, Eq, Structural)]
pub enum DelimiterTag {
    OperationAttributes,
    JobAttributes,
    EndOfAttributes,
    PrinterAttributes,
    UnsupportedAttributes,
}

/// The wire byte of a value tag.
pub open spec fn spec_value_tag_byte(t: ValueTag) -> u8 {
    match t {
        ValueTag::Unsupported => 0x10,
        ValueTag::Unknown => 0x12,
        ValueTag::NoValue => 0x13,
        ValueTag::Integer => 0x21,
        ValueTag::Boolean => 0x22,
        ValueTag::Enum => 0x23,
        ValueTag::OctetStringUnspecified => 0x30,
        ValueTag::DateTime => 0x31,
        ValueTag::Resolution => 0x32,
        ValueTag::RangeOfInteger => 0x33,
        ValueTag::BegCollection => 0x34,
        ValueTag::TextWithLanguage => 0x35,
        ValueTag::NameWithLanguage => 0x36,
        ValueTag::EndCollection => 0x37,
        ValueTag::TextWithoutLanguage => 0x41,
        ValueTag::NameWithoutLanguage => 0x42,
        ValueTag::Keyword => 0x44,
        ValueTag::Uri => 0x45,
        ValueTag::UriScheme => 0x46,
        ValueTag::Charset => 0x47,
        ValueTag::NaturalLanguage => 0x48,
        ValueTag::MimeMediaType => 0x49,
        ValueTag::MemberAttrName => 0x4a,
    }
}

/// The value tag denoted by a byte, if the byte is in the known set.
pub open spec fn spec_value_tag_from(b: u8) -> Option<ValueTag> {
    match b {
        0x10 => Some(ValueTag::Unsupported),
        0x12 => Some(ValueTag::Unknown),
        0x13 => Some(ValueTag::NoValue),
        0x21 => Some(ValueTag::Integer),
        0x22 => Some(ValueTag::Boolean),
        0x23 => Some(ValueTag::Enum),
        0x30 => Some(ValueTag::OctetStringUnspecified),
        0x31 => Some(ValueTag::DateTime),
        0x32 => Some(ValueTag::Resolution),
        0x33 => Some(ValueTag::RangeOfInteger),
        0x34 => Some(ValueTag::BegCollection),
        0x35 => Some(ValueTag::TextWithLanguage),
        0x36 => Some(ValueTag::NameWithLanguage),
        0x37 => Some(ValueTag::EndCollection),
        0x41 => Some(ValueTag::TextWithoutLanguage),
        0x42 => Some(ValueTag::NameWithoutLanguage),
        0x44 => Some(ValueTag::Keyword),
        0x45 => Some(ValueTag::Uri),
        0x46 => Some(ValueTag::UriScheme),
        0x47 => Some(ValueTag::Charset),
        0x48 => Some(ValueTag::NaturalLanguage),
        0x49 => Some(ValueTag::MimeMediaType),
        0x4a => Some(ValueTag::MemberAttrName),
        _ => None,
    }
}

impl ValueTag {
    /// The wire byte of this value tag.
    pub fn as_u8(self) -> (b: u8)
        ensures
            b == spec_value_tag_byte(self),
    {
        match self {
            ValueTag::Unsupported => 0x10,
            ValueTag::Unknown => 0x12,
            ValueTag::NoValue => 0x13,
            ValueTag::Integer => 0x21,
            ValueTag::Boolean => 0x22,
            ValueTag::Enum => 0x23,
            ValueTag::OctetStringUnspecified => 0x30,
            ValueTag::DateTime => 0x31,
            ValueTag::Resolution => 0x32,
            ValueTag::RangeOfInteger => 0x33,
            ValueTag::BegCollection => 0x34,
            ValueTag::TextWithLanguage => 0x35,
            ValueTag::NameWithLanguage => 0x36,
            ValueTag::EndCollection => 0x37,
            ValueTag::TextWithoutLanguage => 0x41,
            ValueTag::NameWithoutLanguage => 0x42,
            ValueTag::Keyword => 0x44,
            ValueTag::Uri => 0x45,
            ValueTag::UriScheme => 0x46,
            ValueTag::Charset => 0x47,
            ValueTag::NaturalLanguage => 0x48,
            ValueTag::MimeMediaType => 0x49,
            ValueTag::MemberAttrName => 0x4a,
        }
    }

    /// The value tag a byte denotes; unrecognized bytes map to `None` and
    /// decode to the raw passthrough value, never to an error.
    pub fn from_u8(b: u8) -> (r: Option<ValueTag>)
        ensures
            r == spec_value_tag_from(b),
    {
        match b {
            0x10 => Some(ValueTag::Unsupported),
            0x12 => Some(ValueTag::Unknown),
            0x13 => Some(ValueTag::NoValue),
            0x21 => Some(ValueTag::Integer),
            0x22 => Some(ValueTag::Boolean),
            0x23 => Some(ValueTag::Enum),
            0x30 => Some(ValueTag::OctetStringUnspecified),
            0x31 => Some(ValueTag::DateTime),
            0x32 => Some(ValueTag::Resolution),
            0x33 => Some(ValueTag::RangeOfInteger),
            0x34 => Some(ValueTag::BegCollection),
            0x35 => Some(ValueTag::TextWithLanguage),
            0x36 => Some(ValueTag::NameWithLanguage),
            0x37 => Some(ValueTag::EndCollection),
            0x41 => Some(ValueTag::TextWithoutLanguage),
            0x42 => Some(ValueTag::NameWithoutLanguage),
            0x44 => Some(ValueTag::Keyword),
            0x45 => Some(ValueTag::Uri),
            0x46 => Some(ValueTag::UriScheme),
            0x47 => Some(ValueTag::Charset),
            0x48 => Some(ValueTag::NaturalLanguage),
            0x49 => Some(ValueTag::MimeMediaType),
            0x4a => Some(ValueTag::MemberAttrName),
            _ => None,
        }
    }
}

/// The wire byte of a delimiter tag.
pub open spec fn spec_delimiter_tag_byte(t: DelimiterTag) -> u8 {
    match t {
        DelimiterTag::OperationAttributes => 0x01,
        DelimiterTag::JobAttributes => 0x02,
        DelimiterTag::EndOfAttributes => 0x03,
        DelimiterTag::PrinterAttributes => 0x04,
        DelimiterTag::UnsupportedAttributes => 0x05,
    }
}

/// The delimiter tag a byte denotes, if any.
pub open spec fn spec_delimiter_tag_from(b: u8) -> Option<DelimiterTag> {
    match b {
        0x01 => Some(DelimiterTag::OperationAttributes),
        0x02 => Some(DelimiterTag::JobAttributes),
        0x03 => Some(DelimiterTag::EndOfAttributes),
        0x04 => Some(DelimiterTag::PrinterAttributes),
        0x05 => Some(DelimiterTag::UnsupportedAttributes),
        _ => None,
    }
}

impl DelimiterTag {
    /// The wire byte of this delimiter tag.
    pub fn as_u8(self) -> (b: u8)
        ensures
            b == spec_delimiter_tag_byte(self),
    {
        match self {
            DelimiterTag::OperationAttributes => 0x01,
            DelimiterTag::JobAttributes => 0x02,
            DelimiterTag::EndOfAttributes => 0x03,
            DelimiterTag::PrinterAttributes => 0x04,
            DelimiterTag::UnsupportedAttributes => 0x05,
        }
    }

    /// The delimiter tag a byte denotes, if any.
    pub fn from_u8(b: u8) -> (r: Option<DelimiterTag>)
        ensures
            r == spec_delimiter_tag_from(b),
    {
        match b {
            0x01 => Some(DelimiterTag::OperationAttributes),
            0x02 => Some(DelimiterTag::JobAttributes),
            0x03 => Some(DelimiterTag::EndOfAttributes),
            0x04 => Some(DelimiterTag::PrinterAttributes),
            0x05 => Some(DelimiterTag::UnsupportedAttributes),
            _ => None,
        }
    }
}

/// Mapping a value tag to its byte and back yields the tag again.
pub proof fn lemma_value_tag_byte_round_trip(t: ValueTag)
    ensures
        spec_value_tag_from(spec_value_tag_byte(t)) == Some(t),
{
}

/// Mapping a delimiter tag to its byte and back yields the tag again.
pub proof fn lemma_delimiter_tag_byte_round_trip(t: DelimiterTag)
    ensures
        spec_delimiter_tag_from(spec_delimiter_tag_byte(t)) == Some(t),
{
}

} // verus!
