use ipp_proto::tag::{DelimiterTag, ValueTag};

#[test]
fn delimiter_tags_have_their_bytes() {
    let table = [
        (DelimiterTag::OperationAttributes, 0x01u8),
        (DelimiterTag::JobAttributes, 0x02),
        (DelimiterTag::EndOfAttributes, 0x03),
        (DelimiterTag::PrinterAttributes, 0x04),
        (DelimiterTag::UnsupportedAttributes, 0x05),
        (DelimiterTag::SubscriptionAttributes, 0x06),
        (DelimiterTag::EventNotificationAttributes, 0x07),
        (DelimiterTag::ResourceAttributes, 0x08),
        (DelimiterTag::DocumentAttributes, 0x09),
        (DelimiterTag::SystemAttributes, 0x0a),
    ];
    for (tag, byte) in table {
        assert_eq!(tag.to_u8(), byte);
        assert_eq!(DelimiterTag::from_u8(byte), Some(tag));
    }
}

#[test]
fn value_tags_have_their_bytes() {
    let table = [
        (ValueTag::Unsupported, 0x10u8),
        (ValueTag::Unknown, 0x12),
        (ValueTag::NoValue, 0x13),
        (ValueTag::Integer, 0x21),
        (ValueTag::Boolean, 0x22),
        (ValueTag::Enum, 0x23),
        (ValueTag::OctetString, 0x30),
        (ValueTag::DateTime, 0x31),
        (ValueTag::Resolution, 0x32),
        (ValueTag::RangeOfInteger, 0x33),
        (ValueTag::BegCollection, 0x34),
        (ValueTag::TextWithLanguage, 0x35),
        (ValueTag::NameWithLanguage, 0x36),
        (ValueTag::EndCollection, 0x37),
        (ValueTag::TextWithoutLanguage, 0x41),
        (ValueTag::NameWithoutLanguage, 0x42),
        (ValueTag::Keyword, 0x44),
        (ValueTag::Uri, 0x45),
        (ValueTag::UriScheme, 0x46),
        (ValueTag::Charset, 0x47),
        (ValueTag::NaturalLanguage, 0x48),
        (ValueTag::MimeMediaType, 0x49),
        (ValueTag::MemberAttrName, 0x4a),
    ];
    for (tag, byte) in table {
        assert_eq!(tag.to_u8(), byte);
        assert_eq!(ValueTag::from_u8(byte), Some(tag));
    }
}

#[test]
fn every_byte_names_at_most_one_tag() {
    let mut delimiters = 0;
    let mut values = 0;
    for b in 0u8..=255 {
        let d = DelimiterTag::from_u8(b);
        let v = ValueTag::from_u8(b);
        assert!(d.is_none() || v.is_none());
        if let Some(t) = d {
            assert_eq!(t.to_u8(), b);
            delimiters += 1;
        }
        if let Some(t) = v {
            assert_eq!(t.to_u8(), b);
            values += 1;
        }
    }
    assert_eq!(delimiters, 10);
    assert_eq!(values, 23);
}

#[test]
fn bytes_outside_the_tables_name_no_tag() {
    for b in [0x00u8, 0x0b, 0x0f, 0x11, 0x14, 0x20, 0x24, 0x38, 0x40, 0x43, 0x4b, 0x7f, 0xff] {
        assert_eq!(DelimiterTag::from_u8(b), None);
        assert_eq!(ValueTag::from_u8(b), None);
    }
}

#[test]
fn only_collection_markers_are_structural() {
    assert!(ValueTag::BegCollection.is_structural());
    assert!(ValueTag::EndCollection.is_structural());
    assert!(ValueTag::MemberAttrName.is_structural());
    assert!(!ValueTag::Integer.is_structural());
    assert!(!ValueTag::Keyword.is_structural());
    assert!(!ValueTag::NoValue.is_structural());
}
