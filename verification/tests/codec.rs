use ipp_proto::attribute::{IppAttributeGroup, IppAttributes};
use ipp_proto::error::ParseError;
use ipp_proto::tag::{DelimiterTag, ValueTag};
use ipp_proto::token::{tokenize, Span, Token};
use ipp_proto::value::{IppAttribute, IppValue};

fn rec(tag: u8, name: &str, value: &[u8]) -> Vec<u8> {
    let mut out = vec![tag];
    out.extend_from_slice(&(name.len() as u16).to_be_bytes());
    out.extend_from_slice(name.as_bytes());
    out.extend_from_slice(&(value.len() as u16).to_be_bytes());
    out.extend_from_slice(value);
    out
}

fn section(parts: &[Vec<u8>]) -> Vec<u8> {
    let mut out = Vec::new();
    for p in parts {
        out.extend_from_slice(p);
    }
    out.push(0x03);
    out
}

fn decode(data: &[u8]) -> Result<(IppAttributes, usize), ParseError> {
    IppAttributes::from_bytes(data, 0)
}

fn one_group(tag: DelimiterTag, attributes: Vec<IppAttribute>) -> IppAttributes {
    IppAttributes { groups: vec![IppAttributeGroup { tag, attributes }] }
}

fn round_trip(a: IppAttributes) {
    assert!(a.is_wf());
    let bytes = a.to_bytes();
    assert_eq!(decode(&bytes), Ok((a, bytes.len())));
}

fn xy_collection() -> IppValue {
    IppValue::Collection(vec![
        IppAttribute::new("x", IppValue::Integer(5)),
        IppAttribute::new("y", IppValue::Keyword("red".to_string())),
    ])
}

#[test]
fn empty_attribute_section_is_the_end_tag_alone() {
    assert_eq!(IppAttributes::new().to_bytes(), vec![0x03]);
    assert_eq!(decode(&[0x03]), Ok((IppAttributes::new(), 1)));
}

#[test]
fn single_attribute_is_one_record() {
    let a = IppAttribute::new("copies", IppValue::Integer(2));
    assert_eq!(a.to_bytes(), rec(0x21, "copies", &[0, 0, 0, 2]));
    let mut out = vec![0xaa];
    a.write(&mut out);
    assert_eq!(out[0], 0xaa);
    assert_eq!(&out[1..], &rec(0x21, "copies", &[0, 0, 0, 2])[..]);
}

#[test]
fn group_is_its_delimiter_and_its_records() {
    let a = one_group(
        DelimiterTag::JobAttributes,
        vec![
            IppAttribute::new("copies", IppValue::Integer(2)),
            IppAttribute::new("sides", IppValue::Keyword("one-sided".to_string())),
        ],
    );
    let expected = section(&[
        vec![0x02],
        rec(0x21, "copies", &[0, 0, 0, 2]),
        rec(0x44, "sides", b"one-sided"),
    ]);
    assert_eq!(a.to_bytes(), expected);
    assert_eq!(decode(&expected), Ok((a, expected.len())));
}

#[test]
fn multi_valued_attribute_continues_with_empty_names() {
    let a = one_group(
        DelimiterTag::JobAttributes,
        vec![IppAttribute::new(
            "count",
            IppValue::ListOf(vec![IppValue::Integer(1), IppValue::Integer(2), IppValue::Integer(3)]),
        )],
    );
    let expected = section(&[
        vec![0x02],
        rec(0x21, "count", &[0, 0, 0, 1]),
        rec(0x21, "", &[0, 0, 0, 2]),
        rec(0x21, "", &[0, 0, 0, 3]),
    ]);
    assert_eq!(a.to_bytes(), expected);
    let (back, end) = decode(&expected).unwrap();
    assert_eq!(end, expected.len());
    assert_eq!(back.groups.len(), 1);
    assert_eq!(back.groups[0].attributes.len(), 1);
    assert_eq!(back.groups[0].attributes[0].name(), "count");
    assert_eq!(
        back.groups[0].attributes[0].value(),
        &IppValue::ListOf(vec![IppValue::Integer(1), IppValue::Integer(2), IppValue::Integer(3)])
    );
    assert_eq!(back, a);
}

#[test]
fn first_continuation_promotes_a_single_value_to_a_list() {
    let data = section(&[vec![0x04], rec(0x44, "k", b"a"), rec(0x44, "", b"b")]);
    let (back, _) = decode(&data).unwrap();
    assert_eq!(
        back.groups[0].attributes,
        vec![IppAttribute::new(
            "k",
            IppValue::ListOf(vec![
                IppValue::Keyword("a".to_string()),
                IppValue::Keyword("b".to_string())
            ])
        )]
    );
}

#[test]
fn continuation_may_bear_another_tag() {
    let data = section(&[vec![0x04], rec(0x21, "n", &[0, 0, 0, 1]), rec(0x33, "", &[0; 8])]);
    let (back, _) = decode(&data).unwrap();
    let value = back.groups[0].attributes[0].value();
    assert_eq!(
        value,
        &IppValue::ListOf(vec![
            IppValue::Integer(1),
            IppValue::RangeOfInteger { min: 0, max: 0 }
        ])
    );
    assert!(value.is_anomalous());
}

#[test]
fn continuation_belongs_to_the_attribute_before_it() {
    let data = section(&[
        vec![0x02],
        rec(0x21, "a", &[0, 0, 0, 1]),
        rec(0x21, "b", &[0, 0, 0, 2]),
        rec(0x21, "", &[0, 0, 0, 3]),
        rec(0x21, "c", &[0, 0, 0, 4]),
    ]);
    let (back, _) = decode(&data).unwrap();
    assert_eq!(
        back.groups[0].attributes,
        vec![
            IppAttribute::new("a", IppValue::Integer(1)),
            IppAttribute::new(
                "b",
                IppValue::ListOf(vec![IppValue::Integer(2), IppValue::Integer(3)])
            ),
            IppAttribute::new("c", IppValue::Integer(4)),
        ]
    );
}

#[test]
fn collection_is_bracketed_and_names_its_members() {
    let a = one_group(
        DelimiterTag::JobAttributes,
        vec![IppAttribute::new("media-col", xy_collection())],
    );
    let expected = section(&[
        vec![0x02],
        rec(0x34, "media-col", &[]),
        rec(0x4a, "", b"x"),
        rec(0x21, "", &[0, 0, 0, 5]),
        rec(0x4a, "", b"y"),
        rec(0x44, "", b"red"),
        rec(0x37, "", &[]),
    ]);
    assert_eq!(a.to_bytes(), expected);
    let (back, end) = decode(&expected).unwrap();
    assert_eq!(end, expected.len());
    let members = back.groups[0].attributes[0].value().as_collection().unwrap();
    assert_eq!(members.len(), 2);
    assert_eq!(members[0], IppAttribute::new("x", IppValue::Integer(5)));
    assert_eq!(members[1], IppAttribute::new("y", IppValue::Keyword("red".to_string())));
    assert_eq!(back, a);
}

#[test]
fn collections_nest() {
    let inner = IppValue::Collection(vec![
        IppAttribute::new("x-dimension", IppValue::Integer(21000)),
        IppAttribute::new("y-dimension", IppValue::Integer(29700)),
    ]);
    let deep = IppValue::Collection(vec![IppAttribute::new(
        "a",
        IppValue::Collection(vec![IppAttribute::new("b", IppValue::Collection(vec![]))]),
    )]);
    let outer = IppValue::Collection(vec![
        IppAttribute::new("media-size", inner),
        IppAttribute::new("media-type", IppValue::Keyword("stationery".to_string())),
        IppAttribute::new("deep", deep),
    ]);
    round_trip(one_group(
        DelimiterTag::JobAttributes,
        vec![
            IppAttribute::new("media-col", outer),
            IppAttribute::new("copies", IppValue::Integer(1)),
        ],
    ));
}

#[test]
fn members_may_have_several_values() {
    let c = IppValue::Collection(vec![
        IppAttribute::new(
            "sizes",
            IppValue::ListOf(vec![IppValue::Integer(1), IppValue::Integer(2)]),
        ),
        IppAttribute::new("last", IppValue::Boolean(false)),
    ]);
    let a = one_group(DelimiterTag::PrinterAttributes, vec![IppAttribute::new("col", c)]);
    let expected = section(&[
        vec![0x04],
        rec(0x34, "col", &[]),
        rec(0x4a, "", b"sizes"),
        rec(0x21, "", &[0, 0, 0, 1]),
        rec(0x21, "", &[0, 0, 0, 2]),
        rec(0x4a, "", b"last"),
        rec(0x22, "", &[0]),
        rec(0x37, "", &[]),
    ]);
    assert_eq!(a.to_bytes(), expected);
    assert_eq!(decode(&expected), Ok((a, expected.len())));
}

#[test]
fn lists_of_collections_round_trip() {
    let list = IppValue::ListOf(vec![xy_collection(), IppValue::Collection(vec![]), xy_collection()]);
    round_trip(one_group(
        DelimiterTag::PrinterAttributes,
        vec![
            IppAttribute::new("media-col-database", list),
            IppAttribute::new("after", IppValue::NoValue),
        ],
    ));
}

#[test]
fn every_kind_of_value_round_trips_in_a_message() {
    let mut a = IppAttributes::new();
    a.add(DelimiterTag::OperationAttributes, IppAttribute::new("i", IppValue::Integer(-5)));
    a.add(DelimiterTag::OperationAttributes, IppAttribute::new("e", IppValue::Enum(3)));
    a.add(DelimiterTag::OperationAttributes, IppAttribute::new("b", IppValue::Boolean(true)));
    a.add(
        DelimiterTag::OperationAttributes,
        IppAttribute::new("o", IppValue::OctetString(vec![0, 3, 0xff])),
    );
    a.add(
        DelimiterTag::JobAttributes,
        IppAttribute::new("r", IppValue::Resolution { cross_feed: 300, feed: 600, units: 3 }),
    );
    a.add(
        DelimiterTag::JobAttributes,
        IppAttribute::new("g", IppValue::RangeOfInteger { min: 1, max: 10 }),
    );
    a.add(
        DelimiterTag::JobAttributes,
        IppAttribute::new(
            "t",
            IppValue::TextWithLanguage { language: "en".to_string(), text: "hello".to_string() },
        ),
    );
    a.add(
        DelimiterTag::PrinterAttributes,
        IppAttribute::new("u", IppValue::Uri("ipp://host/p".to_string())),
    );
    a.add(DelimiterTag::PrinterAttributes, IppAttribute::new("n", IppValue::NoValue));
    a.add(DelimiterTag::PrinterAttributes, IppAttribute::new("k", IppValue::Unknown));
    a.add(DelimiterTag::UnsupportedAttributes, IppAttribute::new("s", IppValue::Unsupported));
    a.add(DelimiterTag::PrinterAttributes, IppAttribute::new("c", xy_collection()));
    round_trip(a);
}

#[test]
fn empty_and_repeated_groups_round_trip() {
    let a = IppAttributes {
        groups: vec![
            IppAttributeGroup::new(DelimiterTag::OperationAttributes),
            IppAttributeGroup::new(DelimiterTag::PrinterAttributes),
            IppAttributeGroup {
                tag: DelimiterTag::PrinterAttributes,
                attributes: vec![IppAttribute::new("a", IppValue::Integer(1))],
            },
            IppAttributeGroup::new(DelimiterTag::SystemAttributes),
        ],
    };
    let bytes = a.to_bytes();
    assert_eq!(bytes, section(&[vec![0x01, 0x04, 0x04], rec(0x21, "a", &[0, 0, 0, 1]), vec![0x0a]]));
    assert_eq!(decode(&bytes), Ok((a, bytes.len())));
}

#[test]
fn longest_name_and_value_round_trip() {
    round_trip(one_group(
        DelimiterTag::JobAttributes,
        vec![IppAttribute::new(&"n".repeat(0xffff), IppValue::OctetString(vec![7; 0xffff]))],
    ));
}

#[test]
fn decoding_stops_behind_the_end_tag() {
    let mut data = section(&[vec![0x01], rec(0x21, "a", &[0, 0, 0, 1])]);
    let end = data.len();
    data.extend_from_slice(b"%PDF-1.4 payload \x03\xff");
    let (back, at) = decode(&data).unwrap();
    assert_eq!(at, end);
    assert_eq!(back.groups.len(), 1);
    assert_eq!(&data[at..], b"%PDF-1.4 payload \x03\xff");
}

#[test]
fn decoding_starts_where_it_is_told() {
    let mut data = vec![9, 9, 9];
    data.extend_from_slice(&section(&[vec![0x02], rec(0x22, "b", &[1])]));
    let (back, at) = IppAttributes::from_bytes(&data, 3).unwrap();
    assert_eq!(at, data.len());
    assert_eq!(back.groups[0].attributes[0], IppAttribute::new("b", IppValue::Boolean(true)));
}

#[test]
fn missing_end_tag_is_unexpected_end_of_stream() {
    assert_eq!(decode(&[]), Err(ParseError::UnexpectedEndOfStream));
    assert_eq!(decode(&[0x01]), Err(ParseError::UnexpectedEndOfStream));
    let mut data = vec![0x01];
    data.extend_from_slice(&rec(0x21, "a", &[0, 0, 0, 1]));
    assert_eq!(decode(&data), Err(ParseError::UnexpectedEndOfStream));
    assert_eq!(IppAttributes::from_bytes(&[0x03], 1), Err(ParseError::UnexpectedEndOfStream));
    assert_eq!(IppAttributes::from_bytes(&[0x03], 7), Err(ParseError::UnexpectedEndOfStream));
}

#[test]
fn record_cut_short_is_unexpected_end_of_stream() {
    let full = section(&[vec![0x01], rec(0x44, "name", b"value")]);
    for cut in 1..full.len() {
        assert_eq!(decode(&full[..cut]), Err(ParseError::UnexpectedEndOfStream), "cut at {}", cut);
    }
    assert_eq!(decode(&[0x01, 0x21, 0x00, 0x05, b'a', 0x03]), Err(ParseError::UnexpectedEndOfStream));
    assert_eq!(
        decode(&[0x01, 0x21, 0x00, 0x01, b'a', 0xff, 0xff, 0x03]),
        Err(ParseError::UnexpectedEndOfStream)
    );
}

#[test]
fn unknown_tag_is_reported_with_its_byte() {
    let data = section(&[vec![0x01], rec(0x21, "a", &[0, 0, 0, 1]), vec![0xff]]);
    assert_eq!(decode(&data), Err(ParseError::UnknownTag(0xff)));
    assert_eq!(decode(&[0x00, 0x03]), Err(ParseError::UnknownTag(0x00)));
    assert_eq!(decode(&[0x01, 0x0b, 0x03]), Err(ParseError::UnknownTag(0x0b)));
    assert_eq!(decode(&[0x01, 0x7f]), Err(ParseError::UnknownTag(0x7f)));
    let data = section(&[vec![0x01], rec(0x20, "a", &[])]);
    assert_eq!(decode(&data), Err(ParseError::UnknownTag(0x20)));
}

#[test]
fn empty_name_at_the_start_of_a_group_is_an_orphan() {
    let data = section(&[vec![0x01], rec(0x21, "", &[0, 0, 0, 1])]);
    assert_eq!(decode(&data), Err(ParseError::OrphanContinuation));
    let data = section(&[
        vec![0x01],
        rec(0x21, "a", &[0, 0, 0, 1]),
        vec![0x02],
        rec(0x21, "", &[0, 0, 0, 2]),
    ]);
    assert_eq!(decode(&data), Err(ParseError::OrphanContinuation));
}

#[test]
fn value_before_the_first_group_is_an_unexpected_tag() {
    let data = section(&[rec(0x21, "a", &[0, 0, 0, 1])]);
    assert_eq!(decode(&data), Err(ParseError::UnexpectedTag(0x21)));
}

#[test]
fn collection_markers_out_of_place_are_unexpected_tags() {
    let data = section(&[vec![0x01], rec(0x37, "a", &[])]);
    assert_eq!(decode(&data), Err(ParseError::UnexpectedTag(0x37)));
    let data = section(&[vec![0x01], rec(0x4a, "a", b"x")]);
    assert_eq!(decode(&data), Err(ParseError::UnexpectedTag(0x4a)));
    let data = section(&[vec![0x01], rec(0x21, "a", &[0, 0, 0, 1]), rec(0x37, "", &[])]);
    assert_eq!(decode(&data), Err(ParseError::UnexpectedTag(0x37)));
    let data = section(&[vec![0x01], rec(0x34, "c", &[]), rec(0x21, "", &[0, 0, 0, 1])]);
    assert_eq!(decode(&data), Err(ParseError::UnexpectedTag(0x21)));
    let data =
        section(&[vec![0x01], rec(0x34, "c", &[]), rec(0x4a, "", b"x"), rec(0x37, "", &[])]);
    assert_eq!(decode(&data), Err(ParseError::UnexpectedTag(0x37)));
    let data =
        section(&[vec![0x01], rec(0x34, "c", &[]), rec(0x4a, "", b"x"), rec(0x4a, "", b"y")]);
    assert_eq!(decode(&data), Err(ParseError::UnexpectedTag(0x4a)));
}

#[test]
fn collection_left_open_is_an_unexpected_tag() {
    let data = section(&[vec![0x01], rec(0x34, "c", &[])]);
    assert_eq!(decode(&data), Err(ParseError::UnexpectedTag(0x03)));
    let data =
        section(&[vec![0x01], rec(0x34, "c", &[]), rec(0x4a, "", b"x"), rec(0x22, "", &[1])]);
    assert_eq!(decode(&data), Err(ParseError::UnexpectedTag(0x03)));
    let data = section(&[vec![0x01], rec(0x34, "c", &[]), vec![0x02]]);
    assert_eq!(decode(&data), Err(ParseError::UnexpectedTag(0x02)));
    let data = section(&[vec![0x01], rec(0x34, "c", &[]), rec(0x4a, "", b"x"), vec![0x04]]);
    assert_eq!(decode(&data), Err(ParseError::UnexpectedTag(0x04)));
}

#[test]
fn malformed_value_field_is_an_invalid_value() {
    let data = section(&[vec![0x01], rec(0x21, "a", &[0, 0, 1])]);
    assert_eq!(decode(&data), Err(ParseError::InvalidValue));
    let data = section(&[vec![0x01], rec(0x22, "a", &[2])]);
    assert_eq!(decode(&data), Err(ParseError::InvalidValue));
    let data = section(&[vec![0x01], rec(0x44, "a", &[0xff])]);
    assert_eq!(decode(&data), Err(ParseError::InvalidValue));
    let data = section(&[vec![0x01], rec(0x13, "a", &[0])]);
    assert_eq!(decode(&data), Err(ParseError::InvalidValue));
}

#[test]
fn name_that_is_not_utf8_is_an_invalid_value() {
    let mut data = vec![0x01, 0x21, 0x00, 0x01, 0xff, 0x00, 0x04, 0, 0, 0, 1];
    data.push(0x03);
    assert_eq!(decode(&data), Err(ParseError::InvalidValue));
    let data = section(&[vec![0x01], rec(0x34, "c", &[]), rec(0x4a, "", &[0x80]), rec(0x37, "", &[])]);
    assert_eq!(decode(&data), Err(ParseError::InvalidValue));
}

#[test]
fn the_first_fault_in_the_stream_is_the_error() {
    let data = section(&[vec![0x01], rec(0x21, "", &[0, 0, 0, 1]), vec![0xff]]);
    assert_eq!(decode(&data), Err(ParseError::OrphanContinuation));
    let data = section(&[vec![0x01], rec(0x21, "a", &[0, 0, 0, 1]), vec![0xff], rec(0x21, "", &[])]);
    assert_eq!(decode(&data), Err(ParseError::UnknownTag(0xff)));
    let mut data = vec![0x01];
    data.extend_from_slice(&rec(0x22, "b", &[7]));
    assert_eq!(decode(&data), Err(ParseError::InvalidValue));
    let mut data = vec![0x01];
    data.extend_from_slice(&rec(0x22, "b", &[1]));
    data.extend_from_slice(&[0x22, 0x00]);
    assert_eq!(decode(&data), Err(ParseError::UnexpectedEndOfStream));
    let mut data = rec(0x21, "a", &[0, 0, 0, 1]);
    data.push(0xff);
    assert_eq!(decode(&data), Err(ParseError::UnexpectedTag(0x21)));
    let mut data = vec![0x01];
    data.extend_from_slice(&rec(0x34, "c", &[]));
    data.extend_from_slice(&rec(0x21, "", &[0, 0, 0, 1]));
    data.push(0x0f);
    assert_eq!(decode(&data), Err(ParseError::UnexpectedTag(0x21)));
}

#[test]
fn an_open_collection_meets_the_fault_of_the_stream() {
    let mut data = vec![0x01];
    data.extend_from_slice(&rec(0x34, "c", &[]));
    data.extend_from_slice(&rec(0x4a, "", b"x"));
    assert_eq!(decode(&data), Err(ParseError::UnexpectedEndOfStream));
    data.extend_from_slice(&rec(0x21, "", &[0, 0, 0, 1]));
    assert_eq!(decode(&data), Err(ParseError::UnexpectedEndOfStream));
    data.push(0xfe);
    assert_eq!(decode(&data), Err(ParseError::UnknownTag(0xfe)));
}

#[test]
fn names_inside_a_collection_are_ignored() {
    let data = section(&[
        vec![0x01],
        rec(0x34, "c", &[]),
        rec(0x4a, "ignored", b"x"),
        rec(0x21, "ignored-too", &[0, 0, 0, 5]),
        rec(0x37, "and-this", &[]),
    ]);
    let (back, _) = decode(&data).unwrap();
    assert_eq!(
        back.groups[0].attributes,
        vec![IppAttribute::new(
            "c",
            IppValue::Collection(vec![IppAttribute::new("x", IppValue::Integer(5))])
        )]
    );
}

#[test]
fn tokenize_finds_delimiters_and_records() {
    let data = section(&[vec![0x04], rec(0x44, "ab", b"xyz"), vec![0x02]]);
    let (tokens, end) = tokenize(&data, 0);
    assert_eq!(end, Ok(data.len()));
    assert_eq!(
        tokens,
        vec![
            Token::Group(DelimiterTag::PrinterAttributes),
            Token::Value {
                tag: ValueTag::Keyword,
                name: Span { start: 4, end: 6 },
                value: Span { start: 8, end: 11 },
            },
            Token::Group(DelimiterTag::JobAttributes),
        ]
    );
    assert_eq!(&data[4..6], b"ab");
    assert_eq!(&data[8..11], b"xyz");
}

#[test]
fn tokenize_gives_the_tokens_before_an_error() {
    let (tokens, end) = tokenize(&[0x01, 0x13, 0, 0, 0, 0, 0xff, 0x03], 0);
    assert_eq!(end, Err(ParseError::UnknownTag(0xff)));
    assert_eq!(
        tokens,
        vec![
            Token::Group(DelimiterTag::OperationAttributes),
            Token::Value {
                tag: ValueTag::NoValue,
                name: Span { start: 4, end: 4 },
                value: Span { start: 6, end: 6 },
            },
        ]
    );
    let (tokens, end) = tokenize(&[0x02, 0x21, 0, 1], 0);
    assert_eq!(end, Err(ParseError::UnexpectedEndOfStream));
    assert_eq!(tokens, vec![Token::Group(DelimiterTag::JobAttributes)]);
    let (tokens, end) = tokenize(&[], 0);
    assert_eq!(end, Err(ParseError::UnexpectedEndOfStream));
    assert_eq!(tokens, vec![]);
}

#[test]
fn lengths_are_written_modulo_65536() {
    let a = IppAttribute::new("a", IppValue::OctetString(vec![0; 0x1_0001]));
    assert!(!a.is_wf());
    let bytes = a.to_bytes();
    assert_eq!(&bytes[..6], &[0x30, 0, 1, b'a', 0, 1]);
    assert_eq!(bytes.len(), 6 + 0x1_0001);
}

struct Rng(u64);

impl Rng {
    fn next(&mut self, bound: u64) -> u64 {
        self.0 = self.0.wrapping_mul(6364136223846793005).wrapping_add(1442695040888963407);
        (self.0 >> 33) % bound
    }

    fn text(&mut self) -> String {
        let alphabet = ["a", "B", "-", "é", "€", "🖨", " ", "0", "\u{0}", "z"];
        let n = self.next(6);
        let mut out = String::new();
        for _ in 0..n {
            out.push_str(alphabet[self.next(10) as usize]);
        }
        out
    }

    fn name(&mut self) -> String {
        let mut out = self.text();
        out.push('n');
        out
    }

    fn number(&mut self) -> i32 {
        let edge = [0, 1, -1, i32::MIN, i32::MAX, 255, 256, -256, 0x0102_0304];
        edge[self.next(9) as usize]
    }

    fn simple(&mut self) -> IppValue {
        match self.next(13) {
            0 => IppValue::Integer(self.number()),
            1 => IppValue::Enum(self.number()),
            2 => IppValue::Boolean(self.next(2) == 1),
            3 => IppValue::OctetString(vec![self.next(256) as u8; self.next(5) as usize]),
            4 => IppValue::Resolution {
                cross_feed: self.number(),
                feed: self.number(),
                units: self.next(256) as u8,
            },
            5 => IppValue::RangeOfInteger { min: self.number(), max: self.number() },
            6 => IppValue::TextWithLanguage { language: self.text(), text: self.text() },
            7 => IppValue::NameWithLanguage { language: self.text(), name: self.text() },
            8 => IppValue::Keyword(self.text()),
            9 => IppValue::Uri(self.text()),
            10 => IppValue::TextWithoutLanguage(self.text()),
            11 => IppValue::NoValue,
            _ => IppValue::MimeMediaType(self.text()),
        }
    }

    fn single(&mut self, depth: u32) -> IppValue {
        if depth > 0 && self.next(3) == 0 {
            let n = self.next(4);
            let mut members = Vec::new();
            for _ in 0..n {
                members.push(IppAttribute::new(&self.text(), self.value(depth - 1)));
            }
            IppValue::Collection(members)
        } else {
            self.simple()
        }
    }

    fn value(&mut self, depth: u32) -> IppValue {
        if self.next(4) == 0 {
            let n = 2 + self.next(3);
            let mut values = Vec::new();
            for _ in 0..n {
                values.push(self.single(depth));
            }
            IppValue::ListOf(values)
        } else {
            self.single(depth)
        }
    }

    fn attributes(&mut self) -> IppAttributes {
        let tags = [
            DelimiterTag::OperationAttributes,
            DelimiterTag::JobAttributes,
            DelimiterTag::PrinterAttributes,
            DelimiterTag::UnsupportedAttributes,
            DelimiterTag::SystemAttributes,
        ];
        let mut groups = Vec::new();
        for _ in 0..self.next(4) {
            let mut attributes = Vec::new();
            for _ in 0..self.next(4) {
                attributes.push(IppAttribute::new(&self.name(), self.value(3)));
            }
            groups.push(IppAttributeGroup { tag: tags[self.next(5) as usize], attributes });
        }
        IppAttributes { groups }
    }
}

#[test]
fn generated_models_round_trip() {
    let mut rng = Rng(2024);
    for _ in 0..300 {
        let a = rng.attributes();
        assert!(a.is_wf());
        let bytes = a.to_bytes();
        let back = decode(&bytes);
        assert_eq!(back, Ok((a, bytes.len())));
    }
}

#[test]
fn generated_models_cut_short_fail_with_unexpected_end_of_stream() {
    let mut rng = Rng(7);
    for _ in 0..40 {
        let a = rng.attributes();
        let bytes = a.to_bytes();
        for n in 0..bytes.len() {
            assert_eq!(decode(&bytes[..n]), Err(ParseError::UnexpectedEndOfStream));
        }
    }
}

#[test]
fn damaged_streams_decode_to_a_message_or_an_error() {
    let mut rng = Rng(99);
    for _ in 0..200 {
        let a = rng.attributes();
        let mut bytes = a.to_bytes();
        if bytes.is_empty() {
            continue;
        }
        for _ in 0..3 {
            let at = rng.next(bytes.len() as u64) as usize;
            bytes[at] = rng.next(256) as u8;
        }
        match decode(&bytes) {
            Ok((back, end)) => {
                assert!(end <= bytes.len());
                assert_eq!(bytes[end - 1], 0x03);
                assert!(back.is_wf());
                let again = back.to_bytes();
                assert_eq!(decode(&again), Ok((back, again.len())));
            },
            Err(_) => {},
        }
    }
}
