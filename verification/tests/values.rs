use ipp_proto::error::ParseError;
use ipp_proto::tag::ValueTag;
use ipp_proto::value::{IppAttribute, IppDateTime, IppValue};

fn round_trip(v: IppValue) {
    let tag = v.to_tag().unwrap();
    let bytes = v.to_bytes();
    assert_eq!(IppValue::from_bytes(tag, &bytes), Ok(v));
}

fn date() -> IppDateTime {
    IppDateTime {
        year: 2024,
        month: 2,
        day: 29,
        hour: 23,
        minutes: 59,
        seconds: 58,
        deciseconds: 7,
        utc_dir: b'+',
        utc_hours: 5,
        utc_mins: 30,
    }
}

#[test]
fn integer_is_four_bytes_twos_complement() {
    assert_eq!(IppValue::Integer(1).to_bytes(), vec![0, 0, 0, 1]);
    assert_eq!(IppValue::Integer(-1).to_bytes(), vec![0xff, 0xff, 0xff, 0xff]);
    assert_eq!(IppValue::Integer(-2).to_bytes(), vec![0xff, 0xff, 0xff, 0xfe]);
    assert_eq!(IppValue::Integer(0x0102_0304).to_bytes(), vec![1, 2, 3, 4]);
    assert_eq!(IppValue::Integer(i32::MIN).to_bytes(), vec![0x80, 0, 0, 0]);
    assert_eq!(IppValue::Integer(i32::MAX).to_bytes(), vec![0x7f, 0xff, 0xff, 0xff]);
    assert_eq!(IppValue::Enum(3).to_bytes(), vec![0, 0, 0, 3]);
}

#[test]
fn integer_decodes_from_four_bytes_only() {
    assert_eq!(
        IppValue::from_bytes(ValueTag::Integer, &[0xff, 0xff, 0xff, 0x85]),
        Ok(IppValue::Integer(-123))
    );
    assert_eq!(IppValue::from_bytes(ValueTag::Enum, &[0, 0, 0, 5]), Ok(IppValue::Enum(5)));
    assert_eq!(
        IppValue::from_bytes(ValueTag::Integer, &[0, 0, 1]),
        Err(ParseError::InvalidValue)
    );
    assert_eq!(
        IppValue::from_bytes(ValueTag::Enum, &[0, 0, 0, 0, 1]),
        Err(ParseError::InvalidValue)
    );
    assert_eq!(IppValue::from_bytes(ValueTag::Integer, &[]), Err(ParseError::InvalidValue));
}

#[test]
fn boolean_is_one_byte_zero_or_one() {
    assert_eq!(IppValue::Boolean(true).to_bytes(), vec![1]);
    assert_eq!(IppValue::Boolean(false).to_bytes(), vec![0]);
    assert_eq!(IppValue::from_bytes(ValueTag::Boolean, &[1]), Ok(IppValue::Boolean(true)));
    assert_eq!(IppValue::from_bytes(ValueTag::Boolean, &[0]), Ok(IppValue::Boolean(false)));
}

#[test]
fn boolean_rejects_any_other_byte() {
    assert_eq!(IppValue::from_bytes(ValueTag::Boolean, &[2]), Err(ParseError::InvalidValue));
    assert_eq!(IppValue::from_bytes(ValueTag::Boolean, &[0xff]), Err(ParseError::InvalidValue));
    assert_eq!(IppValue::from_bytes(ValueTag::Boolean, &[]), Err(ParseError::InvalidValue));
    assert_eq!(IppValue::from_bytes(ValueTag::Boolean, &[1, 0]), Err(ParseError::InvalidValue));
}

#[test]
fn text_is_its_utf8_bytes_without_terminator() {
    assert_eq!(IppValue::Keyword("one-sided".to_string()).to_bytes(), b"one-sided".to_vec());
    assert_eq!(IppValue::Uri(String::new()).to_bytes(), Vec::<u8>::new());
    assert_eq!(
        IppValue::TextWithoutLanguage("né €".to_string()).to_bytes(),
        vec![b'n', 0xc3, 0xa9, b' ', 0xe2, 0x82, 0xac]
    );
}

#[test]
fn text_decodes_under_each_plain_string_tag() {
    let s = "grün 🖨".to_string();
    let b = s.as_bytes();
    assert_eq!(
        IppValue::from_bytes(ValueTag::TextWithoutLanguage, b),
        Ok(IppValue::TextWithoutLanguage(s.clone()))
    );
    assert_eq!(
        IppValue::from_bytes(ValueTag::NameWithoutLanguage, b),
        Ok(IppValue::NameWithoutLanguage(s.clone()))
    );
    assert_eq!(IppValue::from_bytes(ValueTag::Keyword, b), Ok(IppValue::Keyword(s.clone())));
    assert_eq!(IppValue::from_bytes(ValueTag::Uri, b), Ok(IppValue::Uri(s.clone())));
    assert_eq!(IppValue::from_bytes(ValueTag::UriScheme, b), Ok(IppValue::UriScheme(s.clone())));
    assert_eq!(IppValue::from_bytes(ValueTag::Charset, b), Ok(IppValue::Charset(s.clone())));
    assert_eq!(
        IppValue::from_bytes(ValueTag::NaturalLanguage, b),
        Ok(IppValue::NaturalLanguage(s.clone()))
    );
    assert_eq!(
        IppValue::from_bytes(ValueTag::MimeMediaType, b),
        Ok(IppValue::MimeMediaType(s.clone()))
    );
}

#[test]
fn text_that_is_not_utf8_is_invalid() {
    assert_eq!(IppValue::from_bytes(ValueTag::Keyword, &[0xff]), Err(ParseError::InvalidValue));
    assert_eq!(
        IppValue::from_bytes(ValueTag::TextWithoutLanguage, &[b'a', 0xc3]),
        Err(ParseError::InvalidValue)
    );
    assert_eq!(
        IppValue::from_bytes(ValueTag::Uri, &[0xed, 0xa0, 0x80]),
        Err(ParseError::InvalidValue)
    );
    assert_eq!(
        IppValue::from_bytes(ValueTag::Charset, &[0xc0, 0x80]),
        Err(ParseError::InvalidValue)
    );
}

#[test]
fn octet_string_is_raw() {
    let raw = vec![0u8, 0xff, 0x80, 3];
    assert_eq!(IppValue::OctetString(raw.clone()).to_bytes(), raw);
    assert_eq!(
        IppValue::from_bytes(ValueTag::OctetString, &raw),
        Ok(IppValue::OctetString(raw.clone()))
    );
    assert_eq!(
        IppValue::from_bytes(ValueTag::OctetString, &[]),
        Ok(IppValue::OctetString(vec![]))
    );
}

#[test]
fn date_time_is_eleven_bytes() {
    let bytes = IppValue::DateTime(date()).to_bytes();
    assert_eq!(bytes, vec![0x07, 0xe8, 2, 29, 23, 59, 58, 7, b'+', 5, 30]);
    assert_eq!(IppValue::from_bytes(ValueTag::DateTime, &bytes), Ok(IppValue::DateTime(date())));
    assert_eq!(
        IppValue::from_bytes(ValueTag::DateTime, &bytes[..10]),
        Err(ParseError::InvalidValue)
    );
}

#[test]
fn date_time_fields_are_not_judged() {
    let odd = IppDateTime {
        year: 0xffff,
        month: 13,
        day: 0,
        hour: 99,
        minutes: 255,
        seconds: 61,
        deciseconds: 10,
        utc_dir: b'?',
        utc_hours: 200,
        utc_mins: 200,
    };
    round_trip(IppValue::DateTime(odd));
}

#[test]
fn resolution_is_nine_bytes() {
    let v = IppValue::Resolution { cross_feed: 600, feed: 300, units: 3 };
    assert_eq!(v.to_bytes(), vec![0, 0, 2, 0x58, 0, 0, 1, 0x2c, 3]);
    assert_eq!(IppValue::from_bytes(ValueTag::Resolution, &v.to_bytes()), Ok(v));
    assert_eq!(
        IppValue::from_bytes(ValueTag::Resolution, &[0, 0, 2, 0x58, 0, 0, 1, 0x2c]),
        Err(ParseError::InvalidValue)
    );
    round_trip(IppValue::Resolution { cross_feed: -1, feed: i32::MIN, units: 4 });
}

#[test]
fn range_is_eight_bytes() {
    let v = IppValue::RangeOfInteger { min: 1, max: 258 };
    assert_eq!(v.to_bytes(), vec![0, 0, 0, 1, 0, 0, 1, 2]);
    assert_eq!(IppValue::from_bytes(ValueTag::RangeOfInteger, &v.to_bytes()), Ok(v));
    assert_eq!(
        IppValue::from_bytes(ValueTag::RangeOfInteger, &[0; 9]),
        Err(ParseError::InvalidValue)
    );
}

#[test]
fn inverted_range_is_accepted_and_flagged() {
    let v = IppValue::from_bytes(ValueTag::RangeOfInteger, &[0, 0, 0, 9, 0, 0, 0, 2]).unwrap();
    assert_eq!(v, IppValue::RangeOfInteger { min: 9, max: 2 });
    assert!(v.is_anomalous());
    assert!(!IppValue::RangeOfInteger { min: 2, max: 9 }.is_anomalous());
    assert!(!IppValue::RangeOfInteger { min: 2, max: 2 }.is_anomalous());
    assert!(!IppValue::Integer(5).is_anomalous());
}

#[test]
fn list_of_mixed_tags_is_flagged() {
    let mixed = IppValue::ListOf(vec![IppValue::Integer(1), IppValue::Enum(1)]);
    assert!(mixed.is_anomalous());
    let uniform = IppValue::ListOf(vec![
        IppValue::Keyword("a".to_string()),
        IppValue::Keyword("b".to_string()),
    ]);
    assert!(!uniform.is_anomalous());
    assert!(!IppValue::ListOf(vec![]).is_anomalous());
}

#[test]
fn with_language_holds_two_length_prefixed_texts() {
    let v = IppValue::TextWithLanguage { language: "en".to_string(), text: "hi!".to_string() };
    assert_eq!(v.to_bytes(), vec![0, 2, b'e', b'n', 0, 3, b'h', b'i', b'!']);
    assert_eq!(IppValue::from_bytes(ValueTag::TextWithLanguage, &v.to_bytes()), Ok(v));
    let n = IppValue::NameWithLanguage { language: String::new(), name: "é".to_string() };
    assert_eq!(n.to_bytes(), vec![0, 0, 0, 2, 0xc3, 0xa9]);
    assert_eq!(IppValue::from_bytes(ValueTag::NameWithLanguage, &n.to_bytes()), Ok(n));
}

#[test]
fn with_language_rejects_bad_framing() {
    let tag = ValueTag::TextWithLanguage;
    assert_eq!(IppValue::from_bytes(tag, &[]), Err(ParseError::InvalidValue));
    assert_eq!(IppValue::from_bytes(tag, &[0]), Err(ParseError::InvalidValue));
    assert_eq!(IppValue::from_bytes(tag, &[0, 2, b'e']), Err(ParseError::InvalidValue));
    assert_eq!(IppValue::from_bytes(tag, &[0, 2, b'e', b'n']), Err(ParseError::InvalidValue));
    assert_eq!(
        IppValue::from_bytes(tag, &[0, 2, b'e', b'n', 0, 3, b'h', b'i']),
        Err(ParseError::InvalidValue)
    );
    assert_eq!(
        IppValue::from_bytes(tag, &[0, 2, b'e', b'n', 0, 1, b'h', b'i']),
        Err(ParseError::InvalidValue)
    );
    assert_eq!(
        IppValue::from_bytes(tag, &[0, 1, 0xff, 0, 1, b'h']),
        Err(ParseError::InvalidValue)
    );
    assert_eq!(
        IppValue::from_bytes(ValueTag::NameWithLanguage, &[0, 1, b'e', 0, 1, 0x80]),
        Err(ParseError::InvalidValue)
    );
}

#[test]
fn out_of_band_markers_carry_nothing() {
    for (v, tag) in [
        (IppValue::Unsupported, ValueTag::Unsupported),
        (IppValue::Unknown, ValueTag::Unknown),
        (IppValue::NoValue, ValueTag::NoValue),
    ] {
        assert_eq!(v.to_tag(), Some(tag));
        assert_eq!(v.to_bytes(), Vec::<u8>::new());
        assert!(v.is_out_of_band());
        assert_eq!(IppValue::from_bytes(tag, &[0]), Err(ParseError::InvalidValue));
        assert_eq!(IppValue::from_bytes(tag, &[]), Ok(v));
    }
    assert!(!IppValue::Integer(0).is_out_of_band());
    assert!(!IppValue::Keyword(String::new()).is_out_of_band());
}

#[test]
fn out_of_band_markers_differ_from_real_values() {
    assert_ne!(IppValue::NoValue, IppValue::Keyword(String::new()));
    assert_ne!(IppValue::NoValue, IppValue::OctetString(vec![]));
    assert_ne!(IppValue::Unknown, IppValue::NoValue);
    assert_ne!(IppValue::Unsupported, IppValue::Unknown);
}

#[test]
fn structural_tags_decode_to_no_value() {
    assert_eq!(
        IppValue::from_bytes(ValueTag::BegCollection, &[]),
        Err(ParseError::UnexpectedTag(0x34))
    );
    assert_eq!(
        IppValue::from_bytes(ValueTag::EndCollection, &[]),
        Err(ParseError::UnexpectedTag(0x37))
    );
    assert_eq!(
        IppValue::from_bytes(ValueTag::MemberAttrName, b"x"),
        Err(ParseError::UnexpectedTag(0x4a))
    );
}

#[test]
fn every_simple_kind_round_trips() {
    round_trip(IppValue::Integer(0));
    round_trip(IppValue::Integer(i32::MIN));
    round_trip(IppValue::Integer(i32::MAX));
    round_trip(IppValue::Enum(-7));
    round_trip(IppValue::Boolean(true));
    round_trip(IppValue::Boolean(false));
    round_trip(IppValue::OctetString(vec![1, 2, 3]));
    round_trip(IppValue::DateTime(date()));
    round_trip(IppValue::Resolution { cross_feed: 1, feed: 2, units: 3 });
    round_trip(IppValue::RangeOfInteger { min: -5, max: 5 });
    round_trip(IppValue::TextWithLanguage { language: "de".to_string(), text: "Tür".to_string() });
    round_trip(IppValue::NameWithLanguage { language: "fr".to_string(), name: "été".to_string() });
    round_trip(IppValue::TextWithoutLanguage("text".to_string()));
    round_trip(IppValue::NameWithoutLanguage("name".to_string()));
    round_trip(IppValue::Keyword("keyword".to_string()));
    round_trip(IppValue::Uri("ipp://host/printers/p1".to_string()));
    round_trip(IppValue::UriScheme("ipp".to_string()));
    round_trip(IppValue::Charset("utf-8".to_string()));
    round_trip(IppValue::NaturalLanguage("en".to_string()));
    round_trip(IppValue::MimeMediaType("application/pdf".to_string()));
    round_trip(IppValue::Unsupported);
    round_trip(IppValue::Unknown);
    round_trip(IppValue::NoValue);
}

#[test]
fn tags_of_values() {
    assert_eq!(IppValue::Integer(1).to_tag(), Some(ValueTag::Integer));
    assert_eq!(IppValue::Enum(1).to_tag(), Some(ValueTag::Enum));
    assert_eq!(IppValue::Boolean(true).to_tag(), Some(ValueTag::Boolean));
    assert_eq!(IppValue::OctetString(vec![]).to_tag(), Some(ValueTag::OctetString));
    assert_eq!(IppValue::DateTime(date()).to_tag(), Some(ValueTag::DateTime));
    assert_eq!(IppValue::Uri(String::new()).to_tag(), Some(ValueTag::Uri));
    assert_eq!(IppValue::Collection(vec![]).to_tag(), Some(ValueTag::BegCollection));
    assert_eq!(IppValue::ListOf(vec![IppValue::Integer(1)]).to_tag(), None);
}

#[test]
fn composite_values_have_no_value_field() {
    let c = IppValue::Collection(vec![IppAttribute::new("x", IppValue::Integer(5))]);
    assert_eq!(c.to_bytes(), Vec::<u8>::new());
    let l = IppValue::ListOf(vec![IppValue::Integer(1), IppValue::Integer(2)]);
    assert_eq!(l.to_bytes(), Vec::<u8>::new());
}

#[test]
fn typed_access_returns_the_content_of_a_matching_value() {
    assert_eq!(IppValue::Integer(5).as_integer(), Some(&5));
    assert_eq!(IppValue::Enum(4).as_enum(), Some(&4));
    assert_eq!(IppValue::Boolean(true).as_boolean(), Some(&true));
    assert_eq!(IppValue::Keyword("k".to_string()).as_string(), Some(&"k".to_string()));
    assert_eq!(IppValue::Uri("u".to_string()).as_string(), Some(&"u".to_string()));
    assert_eq!(IppValue::MimeMediaType("m".to_string()).as_string(), Some(&"m".to_string()));
    assert_eq!(IppValue::OctetString(vec![7]).as_octets(), Some(&vec![7u8]));
    assert_eq!(IppValue::DateTime(date()).as_date_time(), Some(&date()));
    assert_eq!(
        IppValue::Resolution { cross_feed: 1, feed: 2, units: 3 }.as_resolution(),
        Some((1, 2, 3))
    );
    assert_eq!(IppValue::RangeOfInteger { min: 1, max: 2 }.as_range(), Some((1, 2)));
    let t = IppValue::TextWithLanguage { language: "en".to_string(), text: "x".to_string() };
    assert_eq!(t.as_with_language(), Some((&"en".to_string(), &"x".to_string())));
    let c = IppValue::Collection(vec![IppAttribute::new("x", IppValue::Integer(5))]);
    assert_eq!(c.as_collection().map(|m| m.len()), Some(1));
    let l = IppValue::ListOf(vec![IppValue::Integer(1), IppValue::Integer(2)]);
    assert_eq!(l.as_list().map(|m| m.len()), Some(2));
}

#[test]
fn typed_access_returns_nothing_from_another_kind() {
    assert_eq!(IppValue::Enum(5).as_integer(), None);
    assert_eq!(IppValue::Integer(5).as_enum(), None);
    assert_eq!(IppValue::Integer(1).as_boolean(), None);
    assert_eq!(IppValue::Integer(1).as_string(), None);
    assert_eq!(IppValue::OctetString(vec![b'a']).as_string(), None);
    assert_eq!(IppValue::Keyword("a".to_string()).as_octets(), None);
    assert_eq!(IppValue::Integer(1).as_date_time(), None);
    assert_eq!(IppValue::RangeOfInteger { min: 1, max: 2 }.as_resolution(), None);
    assert_eq!(IppValue::Resolution { cross_feed: 1, feed: 2, units: 3 }.as_range(), None);
    assert_eq!(IppValue::Keyword("a".to_string()).as_with_language(), None);
    assert!(IppValue::ListOf(vec![]).as_collection().is_none());
    assert!(IppValue::Collection(vec![]).as_list().is_none());
}

#[test]
fn typed_access_returns_nothing_from_out_of_band_markers() {
    for v in [IppValue::Unsupported, IppValue::Unknown, IppValue::NoValue] {
        assert_eq!(v.as_integer(), None);
        assert_eq!(v.as_enum(), None);
        assert_eq!(v.as_boolean(), None);
        assert_eq!(v.as_string(), None);
        assert_eq!(v.as_octets(), None);
        assert_eq!(v.as_date_time(), None);
        assert_eq!(v.as_resolution(), None);
        assert_eq!(v.as_range(), None);
        assert_eq!(v.as_with_language(), None);
        assert!(v.as_collection().is_none());
        assert!(v.as_list().is_none());
    }
}

#[test]
fn well_formedness_of_values() {
    assert!(IppValue::Integer(1).is_wf());
    assert!(IppValue::OctetString(vec![0; 0xffff]).is_wf());
    assert!(!IppValue::OctetString(vec![0; 0x1_0000]).is_wf());
    assert!(!IppValue::Keyword("a".repeat(0x1_0000)).is_wf());
    assert!(!IppValue::ListOf(vec![]).is_wf());
    assert!(!IppValue::ListOf(vec![IppValue::Integer(1)]).is_wf());
    assert!(IppValue::ListOf(vec![IppValue::Integer(1), IppValue::Integer(2)]).is_wf());
    let nested = IppValue::ListOf(vec![
        IppValue::Integer(1),
        IppValue::ListOf(vec![IppValue::Integer(2), IppValue::Integer(3)]),
    ]);
    assert!(!nested.is_wf());
    assert!(IppValue::Collection(vec![]).is_wf());
    assert!(IppValue::Collection(vec![IppAttribute::new("", IppValue::NoValue)]).is_wf());
    let long_member =
        IppValue::Collection(vec![IppAttribute::new(&"n".repeat(0x1_0000), IppValue::NoValue)]);
    assert!(!long_member.is_wf());
    let bad_inside = IppValue::Collection(vec![IppAttribute::new("m", IppValue::ListOf(vec![]))]);
    assert!(!bad_inside.is_wf());
    let text = IppValue::TextWithLanguage {
        language: "l".repeat(0x8000),
        text: "t".repeat(0x8000),
    };
    assert!(!text.is_wf());
}
