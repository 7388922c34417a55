//! The two tag vocabularies of the wire format and their byte codes.
use vstd::prelude::*;

verus! {

/// Marks the start of an attribute group, or the end of the attribute section.
#[derive(Clone, Copy, Debug, PartialEq, Eq, Structural)]
pub enum DelimiterTag {
    OperationAttributes,
    JobAttributes,
    EndOfAttributes,
    PrinterAttributes,
    UnsupportedAttributes,
    SubscriptionAttributes,
    EventNotificationAttributes,
    ResourceAttributes,
    DocumentAttributes,
    SystemAttributes,
}

impl DelimiterTag {
    /// The byte that stands for this tag on the wire.
    pub open spec fn spec_to_u8(self) -> u8 {
        match self {
            DelimiterTag::OperationAttributes => 0x01,
            DelimiterTag::JobAttributes => 0x02,
            DelimiterTag::EndOfAttributes => 0x03,
            DelimiterTag::PrinterAttributes => 0x04,
            DelimiterTag::UnsupportedAttributes => 0x05,
            DelimiterTag::SubscriptionAttributes => 0x06,
            DelimiterTag::EventNotificationAttributes => 0x07,
            DelimiterTag::ResourceAttributes => 0x08,
            DelimiterTag::DocumentAttributes => 0x09,
            DelimiterTag::SystemAttributes => 0x0a,
        }
    }

    /// The tag that a byte stands for, if any.
    pub open spec fn spec_from_u8(b: u8) -> Option<DelimiterTag> {
        if b == 0x01 {
            Some(DelimiterTag::OperationAttributes)
        } else if b == 0x02 {
            Some(DelimiterTag::JobAttributes)
        } else if b == 0x03 {
            Some(DelimiterTag::EndOfAttributes)
        } else if b == 0x04 {
            Some(DelimiterTag::PrinterAttributes)
        } else if b == 0x05 {
            Some(DelimiterTag::UnsupportedAttributes)
        } else if b == 0x06 {
            Some(DelimiterTag::SubscriptionAttributes)
        } else if b == 0x07 {
            Some(DelimiterTag::EventNotificationAttributes)
        } else if b == 0x08 {
            Some(DelimiterTag::ResourceAttributes)
        } else if b == 0x09 {
            Some(DelimiterTag::DocumentAttributes)
        } else if b == 0x0a {
            Some(DelimiterTag::SystemAttributes)
        } else {
            None
        }
    }

    #[verifier::when_used_as_spec(spec_to_u8)]
    pub fn to_u8(self) -> (b: u8)
        ensures
            b == self.spec_to_u8(),
    {
        match self {
            DelimiterTag::OperationAttributes => 0x01,
            DelimiterTag::JobAttributes => 0x02,
            DelimiterTag::EndOfAttributes => 0x03,
            DelimiterTag::PrinterAttributes => 0x04,
            DelimiterTag::UnsupportedAttributes => 0x05,
            DelimiterTag::SubscriptionAttributes => 0x06,
            DelimiterTag::EventNotificationAttributes => 0x07,
            DelimiterTag::ResourceAttributes => 0x08,
            DelimiterTag::DocumentAttributes => 0x09,
            DelimiterTag::SystemAttributes => 0x0a,
        }
    }

    #[verifier::when_used_as_spec(spec_from_u8)]
    pub fn from_u8(b: u8) -> (t: Option<DelimiterTag>)
        ensures
            t == Self::spec_from_u8(b),
    {
        if b == 0x01 {
            Some(DelimiterTag::OperationAttributes)
        } else if b == 0x02 {
            Some(DelimiterTag::JobAttributes)
        } else if b == 0x03 {
            Some(DelimiterTag::EndOfAttributes)
        } else if b == 0x04 {
            Some(DelimiterTag::PrinterAttributes)
        } else if b == 0x05 {
            Some(DelimiterTag::UnsupportedAttributes)
        } else if b == 0x06 {
            Some(DelimiterTag::SubscriptionAttributes)
        } else if b == 0x07 {
            Some(DelimiterTag::EventNotificationAttributes)
        } else if b == 0x08 {
            Some(DelimiterTag::ResourceAttributes)
        } else if b == 0x09 {
            Some(DelimiterTag::DocumentAttributes)
        } else if b == 0x0a {
            Some(DelimiterTag::SystemAttributes)
        } else {
            None
        }
    }

    /// Every delimiter tag is found again from its byte, and no delimiter
    /// tag shares its byte with a value tag.
    pub proof fn lemma_byte_roundtrip(self)
        ensures
            Self::spec_from_u8(self.spec_to_u8()) == Some(self),
            ValueTag::spec_from_u8(self.spec_to_u8()) is None,
    {
    }

    /// A byte that names a delimiter tag is that tag's byte.
    pub proof fn lemma_from_byte(b: u8)
        ensures
            Self::spec_from_u8(b) matches Some(t) ==> t.spec_to_u8() == b,
    {
    }
}

/// Says how the value field of a record is to be read.
#[derive(Clone, Copy, Debug, PartialEq, Eq, Structural)]
pub enum ValueTag {
    Unsupported,
    Unknown,
    NoValue,
    Integer,
    Boolean,
    Enum,
    OctetString,
    DateTime,
    Resolution,
    RangeOfInteger,
    BegCollection,
    TextWithLanguage,
    NameWithLanguage,
    EndCollection,
    TextWithoutLanguage,
    NameWithoutLanguage,
    Keyword,
    Uri,
    UriScheme,
    Charset,
    NaturalLanguage,
    MimeMediaType,
    MemberAttrName,
}

impl ValueTag {
    /// The byte that stands for this tag on the wire.
    pub open spec fn spec_to_u8(self) -> u8 {
        match self {
            ValueTag::Unsupported => 0x10,
            ValueTag::Unknown => 0x12,
            ValueTag::NoValue => 0x13,
            ValueTag::Integer => 0x21,
            ValueTag::Boolean => 0x22,
            ValueTag::Enum => 0x23,
            ValueTag::OctetString => 0x30,
            ValueTag::DateTime => 0x31,
            ValueTag::Resolution => 0x32,
            ValueTag::RangeOfInteger => 0x33,
            ValueTag::BegCollection => 0x34,
            ValueTag::TextWithLanguage => 0x35,
            ValueTag::NameWithLanguage => 0x36,
            ValueTag::EndCollection => 0x37,
            ValueTag::TextWithoutLanguage => 0x41,
            ValueTag::NameWithoutLanguage => 0x42,
            ValueTag::Keyword => 0x44,
            ValueTag::Uri => 0x45,
            ValueTag::UriScheme => 0x46,
            ValueTag::Charset => 0x47,
            ValueTag::NaturalLanguage => 0x48,
            ValueTag::MimeMediaType => 0x49,
            ValueTag::MemberAttrName => 0x4a,
        }
    }

    /// The tag that a byte stands for, if any.
    pub open spec fn spec_from_u8(b: u8) -> Option<ValueTag> {
        if b == 0x10 {
            Some(ValueTag::Unsupported)
        } else if b == 0x12 {
            Some(ValueTag::Unknown)
        } else if b == 0x13 {
            Some(ValueTag::NoValue)
        } else if b == 0x21 {
            Some(ValueTag::Integer)
        } else if b == 0x22 {
            Some(ValueTag::Boolean)
        } else if b == 0x23 {
            Some(ValueTag::Enum)
        } else if b == 0x30 {
            Some(ValueTag::OctetString)
        } else if b == 0x31 {
            Some(ValueTag::DateTime)
        } else if b == 0x32 {
            Some(ValueTag::Resolution)
        } else if b == 0x33 {
            Some(ValueTag::RangeOfInteger)
        } else if b == 0x34 {
            Some(ValueTag::BegCollection)
        } else if b == 0x35 {
            Some(ValueTag::TextWithLanguage)
        } else if b == 0x36 {
            Some(ValueTag::NameWithLanguage)
        } else if b == 0x37 {
            Some(ValueTag::EndCollection)
        } else if b == 0x41 {
            Some(ValueTag::TextWithoutLanguage)
        } else if b == 0x42 {
            Some(ValueTag::NameWithoutLanguage)
        } else if b == 0x44 {
            Some(ValueTag::Keyword)
        } else if b == 0x45 {
            Some(ValueTag::Uri)
        } else if b == 0x46 {
            Some(ValueTag::UriScheme)
        } else if b == 0x47 {
            Some(ValueTag::Charset)
        } else if b == 0x48 {
            Some(ValueTag::NaturalLanguage)
        } else if b == 0x49 {
            Some(ValueTag::MimeMediaType)
        } else if b == 0x4a {
            Some(ValueTag::MemberAttrName)
        } else {
            None
        }
    }

    /// True of the three tags that shape a collection and carry no value of
    /// their own.
    pub open spec fn spec_is_structural(self) -> bool {
        self == ValueTag::BegCollection || self == ValueTag::EndCollection || self
            == ValueTag::MemberAttrName
    }

    #[verifier::when_used_as_spec(spec_is_structural)]
    pub fn is_structural(self) -> (b: bool)
        ensures
            b == self.spec_is_structural(),
    {
        match self {
            ValueTag::BegCollection | ValueTag::EndCollection | ValueTag::MemberAttrName => true,
            _ => false,
        }
    }

    #[verifier::when_used_as_spec(spec_to_u8)]
    pub fn to_u8(self) -> (b: u8)
        ensures
            b == self.spec_to_u8(),
    {
        match self {
            ValueTag::Unsupported => 0x10,
            ValueTag::Unknown => 0x12,
            ValueTag::NoValue => 0x13,
            ValueTag::Integer => 0x21,
            ValueTag::Boolean => 0x22,
            ValueTag::Enum => 0x23,
            ValueTag::OctetString => 0x30,
            ValueTag::DateTime => 0x31,
            ValueTag::Resolution => 0x32,
            ValueTag::RangeOfInteger => 0x33,
            ValueTag::BegCollection => 0x34,
            ValueTag::TextWithLanguage => 0x35,
            ValueTag::NameWithLanguage => 0x36,
            ValueTag::EndCollection => 0x37,
            ValueTag::TextWithoutLanguage => 0x41,
            ValueTag::NameWithoutLanguage => 0x42,
            ValueTag::Keyword => 0x44,
            ValueTag::Uri => 0x45,
            ValueTag::UriScheme => 0x46,
            ValueTag::Charset => 0x47,
            ValueTag::NaturalLanguage => 0x48,
            ValueTag::MimeMediaType => 0x49,
            ValueTag::MemberAttrName => 0x4a,
        }
    }

    #[verifier::when_used_as_spec(spec_from_u8)]
    pub fn from_u8(b: u8) -> (t: Option<ValueTag>)
        ensures
            t == Self::spec_from_u8(b),
    {
        if b == 0x10 {
            Some(ValueTag::Unsupported)
        } else if b == 0x12 {
            Some(ValueTag::Unknown)
        } else if b == 0x13 {
            Some(ValueTag::NoValue)
        } else if b == 0x21 {
            Some(ValueTag::Integer)
        } else if b == 0x22 {
            Some(ValueTag::Boolean)
        } else if b == 0x23 {
            Some(ValueTag::Enum)
        } else if b == 0x30 {
            Some(ValueTag::OctetString)
        } else if b == 0x31 {
            Some(ValueTag::DateTime)
        } else if b == 0x32 {
            Some(ValueTag::Resolution)
        } else if b == 0x33 {
            Some(ValueTag::RangeOfInteger)
        } else if b == 0x34 {
            Some(ValueTag::BegCollection)
        } else if b == 0x35 {
            Some(ValueTag::TextWithLanguage)
        } else if b == 0x36 {
            Some(ValueTag::NameWithLanguage)
        } else if b == 0x37 {
            Some(ValueTag::EndCollection)
        } else if b == 0x41 {
            Some(ValueTag::TextWithoutLanguage)
        } else if b == 0x42 {
            Some(ValueTag::NameWithoutLanguage)
        } else if b == 0x44 {
            Some(ValueTag::Keyword)
        } else if b == 0x45 {
            Some(ValueTag::Uri)
        } else if b == 0x46 {
            Some(ValueTag::UriScheme)
        } else if b == 0x47 {
            Some(ValueTag::Charset)
        } else if b == 0x48 {
            Some(ValueTag::NaturalLanguage)
        } else if b == 0x49 {
            Some(ValueTag::MimeMediaType)
        } else if b == 0x4a {
            Some(ValueTag::MemberAttrName)
        } else {
            None
        }
    }

    /// Every value tag is found again from its byte, and no value tag shares
    /// its byte with a delimiter tag.
    pub proof fn lemma_byte_roundtrip(self)
        ensures
            Self::spec_from_u8(self.spec_to_u8()) == Some(self),
            DelimiterTag::spec_from_u8(self.spec_to_u8()) is None,
    {
    }

    /// A byte that names a value tag is that tag's byte.
    pub proof fn lemma_from_byte(b: u8)
        ensures
            Self::spec_from_u8(b) matches Some(t) ==> t.spec_to_u8() == b,
    {
    }
}

} // verus!
