//! Attribute values: the closed union of value kinds, its mathematical view,
//! and the byte form of the value field of a single record.
use vstd::prelude::*;
use vstd::utf8::{decode_utf8, encode_utf8, valid_utf8};
use crate::error::ParseError;
use crate::tag::ValueTag;
use crate::wire::{
    get_i32, get_u16, lemma_i32_roundtrip, lemma_u16_roundtrip, put_i32, put_len16, put_slice,
    put_u16, spec_i32_at, spec_i32_be, spec_len16, spec_u16_at, spec_u16_be,
};
use crate::text::{string_from_utf8, string_bytes};

verus! {

/// A date and time as the protocol carries it: eleven bytes, no field of
/// which is checked against a calendar.
#[derive(Clone, Copy, Debug, PartialEq, Eq, Structural)]
pub struct IppDateTime {
    pub year: u16,
    pub month: u8,
    pub day: u8,
    pub hour: u8,
    pub minutes: u8,
    pub seconds: u8,
    pub deciseconds: u8,
    /// Direction from UTC: the byte `+` or `-`.
    pub utc_dir: u8,
    pub utc_hours: u8,
    pub utc_mins: u8,
}

/// One attribute value. `ListOf` holds the values of a multi-valued
/// attribute in order; `Collection` holds named members, each with a value of
/// its own. The last three variants are the out-of-band markers, which carry
/// nothing.
#[derive(Debug, PartialEq, Eq)]
pub enum IppValue {
    Integer(i32),
    Enum(i32),
    Boolean(bool),
    OctetString(Vec<u8>),
    DateTime(IppDateTime),
    Resolution { cross_feed: i32, feed: i32, units: u8 },
    RangeOfInteger { min: i32, max: i32 },
    TextWithLanguage { language: String, text: String },
    NameWithLanguage { language: String, name: String },
    TextWithoutLanguage(String),
    NameWithoutLanguage(String),
    Keyword(String),
    Uri(String),
    UriScheme(String),
    Charset(String),
    NaturalLanguage(String),
    MimeMediaType(String),
    Collection(Vec<IppAttribute>),
    ListOf(Vec<IppValue>),
    Unsupported,
    Unknown,
    NoValue,
}

/// A name with its value. Inside a collection it is a member.
#[derive(Debug, PartialEq, Eq)]
pub struct IppAttribute {
    pub name: String,
    pub value: IppValue,
}

/// The mathematical content of an [`IppValue`].
pub enum ValueView {
    Integer(i32),
    Enum(i32),
    Boolean(bool),
    OctetString(Seq<u8>),
    DateTime(IppDateTime),
    Resolution { cross_feed: i32, feed: i32, units: u8 },
    RangeOfInteger { min: i32, max: i32 },
    TextWithLanguage { language: Seq<char>, text: Seq<char> },
    NameWithLanguage { language: Seq<char>, name: Seq<char> },
    TextWithoutLanguage(Seq<char>),
    NameWithoutLanguage(Seq<char>),
    Keyword(Seq<char>),
    Uri(Seq<char>),
    UriScheme(Seq<char>),
    Charset(Seq<char>),
    NaturalLanguage(Seq<char>),
    MimeMediaType(Seq<char>),
    Collection(Seq<AttributeView>),
    ListOf(Seq<ValueView>),
    Unsupported,
    Unknown,
    NoValue,
}

/// The mathematical content of an [`IppAttribute`].
pub struct AttributeView {
    pub name: Seq<char>,
    pub value: ValueView,
}

impl IppValue {
    /// The mathematical content of this value: the same variant, with
    /// sequences in place of vectors and strings, all the way down.
    pub open spec fn model(&self) -> ValueView
        decreases self,
    {
        match self {
            IppValue::Integer(i) => ValueView::Integer(*i),
            IppValue::Enum(i) => ValueView::Enum(*i),
            IppValue::Boolean(b) => ValueView::Boolean(*b),
            IppValue::OctetString(o) => ValueView::OctetString(o@),
            IppValue::DateTime(d) => ValueView::DateTime(*d),
            IppValue::Resolution { cross_feed, feed, units } => ValueView::Resolution {
                cross_feed: *cross_feed,
                feed: *feed,
                units: *units,
            },
            IppValue::RangeOfInteger { min, max } => ValueView::RangeOfInteger {
                min: *min,
                max: *max,
            },
            IppValue::TextWithLanguage { language, text } => ValueView::TextWithLanguage {
                language: language@,
                text: text@,
            },
            IppValue::NameWithLanguage { language, name } => ValueView::NameWithLanguage {
                language: language@,
                name: name@,
            },
            IppValue::TextWithoutLanguage(s) => ValueView::TextWithoutLanguage(s@),
            IppValue::NameWithoutLanguage(s) => ValueView::NameWithoutLanguage(s@),
            IppValue::Keyword(s) => ValueView::Keyword(s@),
            IppValue::Uri(s) => ValueView::Uri(s@),
            IppValue::UriScheme(s) => ValueView::UriScheme(s@),
            IppValue::Charset(s) => ValueView::Charset(s@),
            IppValue::NaturalLanguage(s) => ValueView::NaturalLanguage(s@),
            IppValue::MimeMediaType(s) => ValueView::MimeMediaType(s@),
            IppValue::Collection(members) => ValueView::Collection(
                Seq::new(
                    members@.len(),
                    |i: int|
                        if 0 <= i < members@.len() {
                            AttributeView { name: members@[i].name@, value: members@[i].value.model() }
                        } else {
                            AttributeView { name: Seq::empty(), value: ValueView::NoValue }
                        },
                ),
            ),
            IppValue::ListOf(values) => ValueView::ListOf(
                Seq::new(
                    values@.len(),
                    |i: int|
                        if 0 <= i < values@.len() {
                            values@[i].model()
                        } else {
                            ValueView::NoValue
                        },
                ),
            ),
            IppValue::Unsupported => ValueView::Unsupported,
            IppValue::Unknown => ValueView::Unknown,
            IppValue::NoValue => ValueView::NoValue,
        }
    }
}

impl View for IppValue {
    type V = ValueView;

    open spec fn view(&self) -> ValueView {
        self.model()
    }
}

impl View for IppAttribute {
    type V = AttributeView;

    open spec fn view(&self) -> AttributeView {
        AttributeView { name: self.name@, value: self.value@ }
    }
}

/// The views of a vector of values, in order.
pub open spec fn values_view(values: Seq<IppValue>) -> Seq<ValueView> {
    Seq::new(values.len(), |i: int| values[i]@)
}

/// The views of a vector of attributes, in order.
pub open spec fn attributes_view(attributes: Seq<IppAttribute>) -> Seq<AttributeView> {
    Seq::new(attributes.len(), |i: int| attributes[i]@)
}

/// The view of a list is the list of its values' views, and likewise for a
/// collection and its members.
pub proof fn lemma_view_of_composite(v: IppValue)
    ensures
        v matches IppValue::ListOf(values) ==> v@ == ValueView::ListOf(values_view(values@)),
        v matches IppValue::Collection(members) ==> v@ == ValueView::Collection(
            attributes_view(members@),
        ),
{
    match v {
        IppValue::ListOf(values) => {
            assert(v@->ListOf_0 =~= values_view(values@));
        },
        IppValue::Collection(members) => {
            assert(v@->Collection_0 =~= attributes_view(members@));
        },
        _ => {},
    }
}

impl ValueView {
    /// True of a value that one record carries whole: anything but a list or
    /// a collection.
    pub open spec fn is_simple(self) -> bool {
        !(self is ListOf) && !(self is Collection)
    }

    /// The text of a value of one of the eight plain string kinds.
    pub open spec fn text(self) -> Option<Seq<char>> {
        match self {
            ValueView::TextWithoutLanguage(s) => Some(s),
            ValueView::NameWithoutLanguage(s) => Some(s),
            ValueView::Keyword(s) => Some(s),
            ValueView::Uri(s) => Some(s),
            ValueView::UriScheme(s) => Some(s),
            ValueView::Charset(s) => Some(s),
            ValueView::NaturalLanguage(s) => Some(s),
            ValueView::MimeMediaType(s) => Some(s),
            _ => None,
        }
    }

    /// The tag of the record that opens this value. A list has none of its
    /// own: each of its values brings its tag.
    pub open spec fn tag(self) -> Option<ValueTag> {
        match self {
            ValueView::Integer(_) => Some(ValueTag::Integer),
            ValueView::Enum(_) => Some(ValueTag::Enum),
            ValueView::Boolean(_) => Some(ValueTag::Boolean),
            ValueView::OctetString(_) => Some(ValueTag::OctetString),
            ValueView::DateTime(_) => Some(ValueTag::DateTime),
            ValueView::Resolution { .. } => Some(ValueTag::Resolution),
            ValueView::RangeOfInteger { .. } => Some(ValueTag::RangeOfInteger),
            ValueView::TextWithLanguage { .. } => Some(ValueTag::TextWithLanguage),
            ValueView::NameWithLanguage { .. } => Some(ValueTag::NameWithLanguage),
            ValueView::TextWithoutLanguage(_) => Some(ValueTag::TextWithoutLanguage),
            ValueView::NameWithoutLanguage(_) => Some(ValueTag::NameWithoutLanguage),
            ValueView::Keyword(_) => Some(ValueTag::Keyword),
            ValueView::Uri(_) => Some(ValueTag::Uri),
            ValueView::UriScheme(_) => Some(ValueTag::UriScheme),
            ValueView::Charset(_) => Some(ValueTag::Charset),
            ValueView::NaturalLanguage(_) => Some(ValueTag::NaturalLanguage),
            ValueView::MimeMediaType(_) => Some(ValueTag::MimeMediaType),
            ValueView::Collection(_) => Some(ValueTag::BegCollection),
            ValueView::ListOf(_) => None,
            ValueView::Unsupported => Some(ValueTag::Unsupported),
            ValueView::Unknown => Some(ValueTag::Unknown),
            ValueView::NoValue => Some(ValueTag::NoValue),
        }
    }

    /// The bytes of the value field of the record that carries this value.
    /// Numbers stand high byte first, text as its UTF-8 bytes with no
    /// terminator. A collection's opening record, a list and the out-of-band
    /// markers have an empty value field.
    pub open spec fn payload(self) -> Seq<u8> {
        match self {
            ValueView::Integer(i) => spec_i32_be(i),
            ValueView::Enum(i) => spec_i32_be(i),
            ValueView::Boolean(b) => seq![if b { 1u8 } else { 0u8 }],
            ValueView::OctetString(o) => o,
            ValueView::DateTime(d) => spec_date_time_bytes(d),
            ValueView::Resolution { cross_feed, feed, units } => spec_i32_be(cross_feed)
                + spec_i32_be(feed) + seq![units],
            ValueView::RangeOfInteger { min, max } => spec_i32_be(min) + spec_i32_be(max),
            ValueView::TextWithLanguage { language, text } => spec_with_language_bytes(
                language,
                text,
            ),
            ValueView::NameWithLanguage { language, name } => spec_with_language_bytes(
                language,
                name,
            ),
            ValueView::TextWithoutLanguage(s) => encode_utf8(s),
            ValueView::NameWithoutLanguage(s) => encode_utf8(s),
            ValueView::Keyword(s) => encode_utf8(s),
            ValueView::Uri(s) => encode_utf8(s),
            ValueView::UriScheme(s) => encode_utf8(s),
            ValueView::Charset(s) => encode_utf8(s),
            ValueView::NaturalLanguage(s) => encode_utf8(s),
            ValueView::MimeMediaType(s) => encode_utf8(s),
            ValueView::Collection(_) => Seq::empty(),
            ValueView::ListOf(_) => Seq::empty(),
            ValueView::Unsupported => Seq::empty(),
            ValueView::Unknown => Seq::empty(),
            ValueView::NoValue => Seq::empty(),
        }
    }

    /// True of a value that the wire format can carry and give back: every
    /// value field and member name fits the two-byte length before it, a
    /// list has at least two values, and none of them is itself a list.
    pub open spec fn wf(self) -> bool
        decreases self,
    {
        match self {
            ValueView::ListOf(values) => {
                &&& values.len() >= 2
                &&& forall|i: int|
                    0 <= i < values.len() ==> !(#[trigger] values[i] is ListOf) && values[i].wf()
            },
            ValueView::Collection(members) => forall|i: int|
                0 <= i < members.len() ==> encode_utf8((#[trigger] members[i]).name).len()
                    <= 0xffff && members[i].value.wf(),
            _ => self.payload().len() <= 0xffff,
        }
    }

    /// True of a list in which some value bears another tag than the first.
    pub open spec fn is_mixed_list(self) -> bool {
        self matches ValueView::ListOf(values) && exists|i: int|
            0 <= i < values.len() && (#[trigger] values[i]).tag() != values[0].tag()
    }

    /// True of a value that the wire format carries but that makes no sense
    /// by itself: a range whose lower bound lies above its upper bound, or a
    /// list whose values do not all bear the tag of the first. Decoding accepts
    /// such a value; this is how a caller finds it. Only the value itself is
    /// judged, not the members or values inside it.
    pub open spec fn is_anomalous(self) -> bool {
        ||| (self matches ValueView::RangeOfInteger { min, max } && min > max)
        ||| self.is_mixed_list()
    }
}

/// The eleven bytes of a date and time.
pub open spec fn spec_date_time_bytes(d: IppDateTime) -> Seq<u8> {
    spec_u16_be(d.year) + seq![
        d.month,
        d.day,
        d.hour,
        d.minutes,
        d.seconds,
        d.deciseconds,
        d.utc_dir,
        d.utc_hours,
        d.utc_mins,
    ]
}

/// The date and time that the eleven bytes of `b` spell.
pub open spec fn spec_date_time_from(b: Seq<u8>) -> IppDateTime
    recommends
        b.len() == 11,
{
    IppDateTime {
        year: spec_u16_at(b, 0),
        month: b[2],
        day: b[3],
        hour: b[4],
        minutes: b[5],
        seconds: b[6],
        deciseconds: b[7],
        utc_dir: b[8],
        utc_hours: b[9],
        utc_mins: b[10],
    }
}

/// The value field of a text or name with language: the language and the
/// text, each behind its two-byte length.
pub open spec fn spec_with_language_bytes(language: Seq<char>, text: Seq<char>) -> Seq<u8> {
    spec_u16_be(spec_len16(encode_utf8(language).len())) + encode_utf8(language) + spec_u16_be(
        spec_len16(encode_utf8(text).len()),
    ) + encode_utf8(text)
}

/// True where `b` splits into a language and a text, each behind its
/// two-byte length, with nothing left over, and both are UTF-8.
pub open spec fn spec_with_language_ok(b: Seq<u8>) -> bool {
    &&& b.len() >= 2
    &&& 4 + spec_u16_at(b, 0) <= b.len()
    &&& 4 + spec_u16_at(b, 0) + spec_u16_at(b, 2 + spec_u16_at(b, 0)) == b.len()
    &&& valid_utf8(spec_with_language_first(b))
    &&& valid_utf8(spec_with_language_second(b))
}

/// The bytes of the language in the value field `b`.
pub open spec fn spec_with_language_first(b: Seq<u8>) -> Seq<u8> {
    b.subrange(2, 2 + spec_u16_at(b, 0))
}

/// The bytes of the text in the value field `b`.
pub open spec fn spec_with_language_second(b: Seq<u8>) -> Seq<u8> {
    b.subrange(4 + spec_u16_at(b, 0), b.len() as int)
}

/// What the value field `b` of a record with tag `tag` decodes to. A field
/// whose length or content does not fit the tag is an `InvalidValue`; the
/// three tags that shape a collection carry no value and are an
/// `UnexpectedTag`.
pub open spec fn spec_decode_value(tag: ValueTag, b: Seq<u8>) -> Result<ValueView, ParseError> {
    match tag {
        ValueTag::Integer => if b.len() == 4 {
            Ok(ValueView::Integer(spec_i32_at(b, 0)))
        } else {
            Err(ParseError::InvalidValue)
        },
        ValueTag::Enum => if b.len() == 4 {
            Ok(ValueView::Enum(spec_i32_at(b, 0)))
        } else {
            Err(ParseError::InvalidValue)
        },
        ValueTag::Boolean => if b.len() == 1 && b[0] <= 1 {
            Ok(ValueView::Boolean(b[0] == 1))
        } else {
            Err(ParseError::InvalidValue)
        },
        ValueTag::OctetString => Ok(ValueView::OctetString(b)),
        ValueTag::DateTime => if b.len() == 11 {
            Ok(ValueView::DateTime(spec_date_time_from(b)))
        } else {
            Err(ParseError::InvalidValue)
        },
        ValueTag::Resolution => if b.len() == 9 {
            Ok(
                ValueView::Resolution {
                    cross_feed: spec_i32_at(b, 0),
                    feed: spec_i32_at(b, 4),
                    units: b[8],
                },
            )
        } else {
            Err(ParseError::InvalidValue)
        },
        ValueTag::RangeOfInteger => if b.len() == 8 {
            Ok(ValueView::RangeOfInteger { min: spec_i32_at(b, 0), max: spec_i32_at(b, 4) })
        } else {
            Err(ParseError::InvalidValue)
        },
        ValueTag::TextWithLanguage => if spec_with_language_ok(b) {
            Ok(
                ValueView::TextWithLanguage {
                    language: decode_utf8(spec_with_language_first(b)),
                    text: decode_utf8(spec_with_language_second(b)),
                },
            )
        } else {
            Err(ParseError::InvalidValue)
        },
        ValueTag::NameWithLanguage => if spec_with_language_ok(b) {
            Ok(
                ValueView::NameWithLanguage {
                    language: decode_utf8(spec_with_language_first(b)),
                    name: decode_utf8(spec_with_language_second(b)),
                },
            )
        } else {
            Err(ParseError::InvalidValue)
        },
        ValueTag::TextWithoutLanguage => spec_decode_text(tag, b),
        ValueTag::NameWithoutLanguage => spec_decode_text(tag, b),
        ValueTag::Keyword => spec_decode_text(tag, b),
        ValueTag::Uri => spec_decode_text(tag, b),
        ValueTag::UriScheme => spec_decode_text(tag, b),
        ValueTag::Charset => spec_decode_text(tag, b),
        ValueTag::NaturalLanguage => spec_decode_text(tag, b),
        ValueTag::MimeMediaType => spec_decode_text(tag, b),
        ValueTag::Unsupported => if b.len() == 0 {
            Ok(ValueView::Unsupported)
        } else {
            Err(ParseError::InvalidValue)
        },
        ValueTag::Unknown => if b.len() == 0 {
            Ok(ValueView::Unknown)
        } else {
            Err(ParseError::InvalidValue)
        },
        ValueTag::NoValue => if b.len() == 0 {
            Ok(ValueView::NoValue)
        } else {
            Err(ParseError::InvalidValue)
        },
        ValueTag::BegCollection => Err(ParseError::UnexpectedTag(tag.spec_to_u8())),
        ValueTag::EndCollection => Err(ParseError::UnexpectedTag(tag.spec_to_u8())),
        ValueTag::MemberAttrName => Err(ParseError::UnexpectedTag(tag.spec_to_u8())),
    }
}

/// The text value of kind `tag` with the characters `s`.
pub open spec fn spec_text_value(tag: ValueTag, s: Seq<char>) -> ValueView {
    match tag {
        ValueTag::TextWithoutLanguage => ValueView::TextWithoutLanguage(s),
        ValueTag::NameWithoutLanguage => ValueView::NameWithoutLanguage(s),
        ValueTag::Keyword => ValueView::Keyword(s),
        ValueTag::Uri => ValueView::Uri(s),
        ValueTag::UriScheme => ValueView::UriScheme(s),
        ValueTag::Charset => ValueView::Charset(s),
        ValueTag::NaturalLanguage => ValueView::NaturalLanguage(s),
        _ => ValueView::MimeMediaType(s),
    }
}

/// What the bytes `b` decode to under one of the eight plain string tags:
/// the text they spell in UTF-8, or `InvalidValue` where they spell none.
pub open spec fn spec_decode_text(tag: ValueTag, b: Seq<u8>) -> Result<ValueView, ParseError> {
    if valid_utf8(b) {
        Ok(spec_text_value(tag, decode_utf8(b)))
    } else {
        Err(ParseError::InvalidValue)
    }
}

/// The view of a decoding result.
pub open spec fn value_result_view(r: Result<IppValue, ParseError>) -> Result<
    ValueView,
    ParseError,
> {
    match r {
        Ok(v) => Ok(v@),
        Err(e) => Err(e),
    }
}

impl IppDateTime {
    /// Appends the eleven bytes of this date and time.
    pub(crate) fn write(&self, out: &mut Vec<u8>)
        ensures
            final(out)@ == old(out)@ + spec_date_time_bytes(*self),
    {
        put_u16(out, self.year);
        out.push(self.month);
        out.push(self.day);
        out.push(self.hour);
        out.push(self.minutes);
        out.push(self.seconds);
        out.push(self.deciseconds);
        out.push(self.utc_dir);
        out.push(self.utc_hours);
        out.push(self.utc_mins);
        assert(out@ =~= old(out)@ + spec_date_time_bytes(*self));
    }

    /// Reads a date and time from eleven bytes.
    pub(crate) fn read(data: &[u8]) -> (d: IppDateTime)
        requires
            data@.len() == 11,
        ensures
            d == spec_date_time_from(data@),
    {
        IppDateTime {
            year: get_u16(data, 0),
            month: data[2],
            day: data[3],
            hour: data[4],
            minutes: data[5],
            seconds: data[6],
            deciseconds: data[7],
            utc_dir: data[8],
            utc_hours: data[9],
            utc_mins: data[10],
        }
    }
}

/// Appends a language and a text, each behind its two-byte length.
fn write_with_language(out: &mut Vec<u8>, language: &String, text: &String)
    ensures
        final(out)@ == old(out)@ + spec_with_language_bytes(language@, text@),
{
    let lang = string_bytes(language);
    let body = string_bytes(text);
    put_len16(out, lang.len());
    put_slice(out, lang);
    put_len16(out, body.len());
    put_slice(out, body);
    assert(out@ =~= old(out)@ + spec_with_language_bytes(language@, text@));
}

/// Splits a value field into its language and its text.
fn read_with_language(data: &[u8]) -> (r: Option<(String, String)>)
    ensures
        r is Some <==> spec_with_language_ok(data@),
        r matches Some(p) ==> p.0@ == decode_utf8(spec_with_language_first(data@)) && p.1@
            == decode_utf8(spec_with_language_second(data@)),
{
    if data.len() < 2 {
        return None;
    }
    let first_len: usize = get_u16(data, 0) as usize;
    if data.len() - 2 < first_len || data.len() - 2 - first_len < 2 {
        return None;
    }
    let second_len: usize = get_u16(data, 2 + first_len) as usize;
    if data.len() - 4 - first_len != second_len {
        return None;
    }
    let first = string_from_utf8(vstd::slice::slice_subrange(data, 2, 2 + first_len));
    let second = string_from_utf8(vstd::slice::slice_subrange(data, 4 + first_len, data.len()));
    match (first, second) {
        (Some(language), Some(text)) => Some((language, text)),
        _ => None,
    }
}

/// Decodes a value of one of the eight plain string kinds.
fn read_text(tag: ValueTag, data: &[u8]) -> (r: Result<IppValue, ParseError>)
    ensures
        value_result_view(r) == spec_decode_text(tag, data@),
{
    match string_from_utf8(data) {
        Some(s) => Ok(
            match tag {
                ValueTag::TextWithoutLanguage => IppValue::TextWithoutLanguage(s),
                ValueTag::NameWithoutLanguage => IppValue::NameWithoutLanguage(s),
                ValueTag::Keyword => IppValue::Keyword(s),
                ValueTag::Uri => IppValue::Uri(s),
                ValueTag::UriScheme => IppValue::UriScheme(s),
                ValueTag::Charset => IppValue::Charset(s),
                ValueTag::NaturalLanguage => IppValue::NaturalLanguage(s),
                _ => IppValue::MimeMediaType(s),
            },
        ),
        None => Err(ParseError::InvalidValue),
    }
}

impl IppValue {
    /// The tag of the record that opens this value; `None` for a list.
    pub fn to_tag(&self) -> (t: Option<ValueTag>)
        ensures
            t == self@.tag(),
    {
        match self {
            IppValue::Integer(_) => Some(ValueTag::Integer),
            IppValue::Enum(_) => Some(ValueTag::Enum),
            IppValue::Boolean(_) => Some(ValueTag::Boolean),
            IppValue::OctetString(_) => Some(ValueTag::OctetString),
            IppValue::DateTime(_) => Some(ValueTag::DateTime),
            IppValue::Resolution { .. } => Some(ValueTag::Resolution),
            IppValue::RangeOfInteger { .. } => Some(ValueTag::RangeOfInteger),
            IppValue::TextWithLanguage { .. } => Some(ValueTag::TextWithLanguage),
            IppValue::NameWithLanguage { .. } => Some(ValueTag::NameWithLanguage),
            IppValue::TextWithoutLanguage(_) => Some(ValueTag::TextWithoutLanguage),
            IppValue::NameWithoutLanguage(_) => Some(ValueTag::NameWithoutLanguage),
            IppValue::Keyword(_) => Some(ValueTag::Keyword),
            IppValue::Uri(_) => Some(ValueTag::Uri),
            IppValue::UriScheme(_) => Some(ValueTag::UriScheme),
            IppValue::Charset(_) => Some(ValueTag::Charset),
            IppValue::NaturalLanguage(_) => Some(ValueTag::NaturalLanguage),
            IppValue::MimeMediaType(_) => Some(ValueTag::MimeMediaType),
            IppValue::Collection(_) => Some(ValueTag::BegCollection),
            IppValue::ListOf(_) => None,
            IppValue::Unsupported => Some(ValueTag::Unsupported),
            IppValue::Unknown => Some(ValueTag::Unknown),
            IppValue::NoValue => Some(ValueTag::NoValue),
        }
    }

    /// Encodes the value field of the record that carries this value.
    pub fn to_bytes(&self) -> (out: Vec<u8>)
        ensures
            out@ == self@.payload(),
    {
        let mut out: Vec<u8> = Vec::new();
        match self {
            IppValue::Integer(i) => put_i32(&mut out, *i),
            IppValue::Enum(i) => put_i32(&mut out, *i),
            IppValue::Boolean(b) => {
                out.push(if *b { 1u8 } else { 0u8 });
            },
            IppValue::OctetString(o) => put_slice(&mut out, o.as_slice()),
            IppValue::DateTime(d) => d.write(&mut out),
            IppValue::Resolution { cross_feed, feed, units } => {
                put_i32(&mut out, *cross_feed);
                put_i32(&mut out, *feed);
                out.push(*units);
            },
            IppValue::RangeOfInteger { min, max } => {
                put_i32(&mut out, *min);
                put_i32(&mut out, *max);
            },
            IppValue::TextWithLanguage { language, text } => write_with_language(
                &mut out,
                language,
                text,
            ),
            IppValue::NameWithLanguage { language, name } => write_with_language(
                &mut out,
                language,
                name,
            ),
            IppValue::TextWithoutLanguage(s) => put_slice(&mut out, string_bytes(s)),
            IppValue::NameWithoutLanguage(s) => put_slice(&mut out, string_bytes(s)),
            IppValue::Keyword(s) => put_slice(&mut out, string_bytes(s)),
            IppValue::Uri(s) => put_slice(&mut out, string_bytes(s)),
            IppValue::UriScheme(s) => put_slice(&mut out, string_bytes(s)),
            IppValue::Charset(s) => put_slice(&mut out, string_bytes(s)),
            IppValue::NaturalLanguage(s) => put_slice(&mut out, string_bytes(s)),
            IppValue::MimeMediaType(s) => put_slice(&mut out, string_bytes(s)),
            IppValue::Collection(_) => {},
            IppValue::ListOf(_) => {},
            IppValue::Unsupported => {},
            IppValue::Unknown => {},
            IppValue::NoValue => {},
        }
        assert(out@ =~= self@.payload());
        out
    }

    /// Decodes the value field `data` of a record whose tag is `tag`.
    pub fn from_bytes(tag: ValueTag, data: &[u8]) -> (r: Result<IppValue, ParseError>)
        ensures
            value_result_view(r) == spec_decode_value(tag, data@),
    {
        match tag {
            ValueTag::Integer => if data.len() == 4 {
                Ok(IppValue::Integer(get_i32(data, 0)))
            } else {
                Err(ParseError::InvalidValue)
            },
            ValueTag::Enum => if data.len() == 4 {
                Ok(IppValue::Enum(get_i32(data, 0)))
            } else {
                Err(ParseError::InvalidValue)
            },
            ValueTag::Boolean => if data.len() == 1 && data[0] <= 1 {
                Ok(IppValue::Boolean(data[0] == 1))
            } else {
                Err(ParseError::InvalidValue)
            },
            ValueTag::OctetString => Ok(IppValue::OctetString(vstd::slice::slice_to_vec(data))),
            ValueTag::DateTime => if data.len() == 11 {
                Ok(IppValue::DateTime(IppDateTime::read(data)))
            } else {
                Err(ParseError::InvalidValue)
            },
            ValueTag::Resolution => if data.len() == 9 {
                Ok(
                    IppValue::Resolution {
                        cross_feed: get_i32(data, 0),
                        feed: get_i32(data, 4),
                        units: data[8],
                    },
                )
            } else {
                Err(ParseError::InvalidValue)
            },
            ValueTag::RangeOfInteger => if data.len() == 8 {
                Ok(IppValue::RangeOfInteger { min: get_i32(data, 0), max: get_i32(data, 4) })
            } else {
                Err(ParseError::InvalidValue)
            },
            ValueTag::TextWithLanguage => match read_with_language(data) {
                Some((language, text)) => Ok(IppValue::TextWithLanguage { language, text }),
                None => Err(ParseError::InvalidValue),
            },
            ValueTag::NameWithLanguage => match read_with_language(data) {
                Some((language, name)) => Ok(IppValue::NameWithLanguage { language, name }),
                None => Err(ParseError::InvalidValue),
            },
            ValueTag::TextWithoutLanguage => read_text(tag, data),
            ValueTag::NameWithoutLanguage => read_text(tag, data),
            ValueTag::Keyword => read_text(tag, data),
            ValueTag::Uri => read_text(tag, data),
            ValueTag::UriScheme => read_text(tag, data),
            ValueTag::Charset => read_text(tag, data),
            ValueTag::NaturalLanguage => read_text(tag, data),
            ValueTag::MimeMediaType => read_text(tag, data),
            ValueTag::Unsupported => if data.len() == 0 {
                Ok(IppValue::Unsupported)
            } else {
                Err(ParseError::InvalidValue)
            },
            ValueTag::Unknown => if data.len() == 0 {
                Ok(IppValue::Unknown)
            } else {
                Err(ParseError::InvalidValue)
            },
            ValueTag::NoValue => if data.len() == 0 {
                Ok(IppValue::NoValue)
            } else {
                Err(ParseError::InvalidValue)
            },
            ValueTag::BegCollection => Err(ParseError::UnexpectedTag(tag.to_u8())),
            ValueTag::EndCollection => Err(ParseError::UnexpectedTag(tag.to_u8())),
            ValueTag::MemberAttrName => Err(ParseError::UnexpectedTag(tag.to_u8())),
        }
    }
}

/// Reading back the bytes of a language and a text gives both, provided each
/// fits its two-byte length.
pub proof fn lemma_with_language_roundtrip(language: Seq<char>, text: Seq<char>)
    requires
        spec_with_language_bytes(language, text).len() <= 0xffff,
    ensures
        spec_with_language_ok(spec_with_language_bytes(language, text)),
        decode_utf8(spec_with_language_first(spec_with_language_bytes(language, text)))
            == language,
        decode_utf8(spec_with_language_second(spec_with_language_bytes(language, text))) == text,
{
    vstd::utf8::encode_utf8_valid_utf8(language);
    vstd::utf8::encode_utf8_decode_utf8(language);
    vstd::utf8::encode_utf8_valid_utf8(text);
    vstd::utf8::encode_utf8_decode_utf8(text);
    let first = encode_utf8(language);
    let second = encode_utf8(text);
    let b = spec_with_language_bytes(language, text);
    lemma_u16_roundtrip(spec_len16(first.len()));
    lemma_u16_roundtrip(spec_len16(second.len()));
    assert(b.len() == 4 + first.len() + second.len());
    assert(b[0] == spec_u16_be(spec_len16(first.len()))[0]);
    assert(b[1] == spec_u16_be(spec_len16(first.len()))[1]);
    assert(spec_u16_at(b, 0) == first.len());
    assert(b[2 + first.len() as int] == spec_u16_be(spec_len16(second.len()))[0]);
    assert(b[3 + first.len() as int] == spec_u16_be(spec_len16(second.len()))[1]);
    assert(spec_u16_at(b, 2 + first.len() as int) == second.len());
    assert(spec_with_language_first(b) =~= first);
    assert(spec_with_language_second(b) =~= second);
}

/// Reading back the UTF-8 bytes of a text under a plain string tag gives the
/// text of that kind.
pub proof fn lemma_text_roundtrip(tag: ValueTag, s: Seq<char>)
    ensures
        spec_decode_text(tag, encode_utf8(s)) == Ok::<ValueView, ParseError>(
            spec_text_value(tag, s),
        ),
{
    vstd::utf8::encode_utf8_valid_utf8(s);
    vstd::utf8::encode_utf8_decode_utf8(s);
}

/// Reading back the bytes of two signed numbers gives both.
pub proof fn lemma_i32_pair_roundtrip(x: i32, y: i32, rest: Seq<u8>)
    ensures
        spec_i32_at(spec_i32_be(x) + spec_i32_be(y) + rest, 0) == x,
        spec_i32_at(spec_i32_be(x) + spec_i32_be(y) + rest, 4) == y,
{
    let b = spec_i32_be(x) + spec_i32_be(y) + rest;
    lemma_i32_roundtrip(x);
    lemma_i32_roundtrip(y);
    assert(b.subrange(0, 4) =~= spec_i32_be(x));
    assert(b.subrange(4, 8) =~= spec_i32_be(y));
    assert(spec_i32_at(b, 0) == spec_i32_at(b.subrange(0, 4), 0));
    assert(spec_i32_at(b, 4) == spec_i32_at(b.subrange(4, 8), 0));
}

/// Encoding and decoding are inverses on single records: the value field of
/// a well-formed simple value, read under that value's tag, gives the value
/// back.
pub proof fn lemma_value_roundtrip(v: ValueView)
    requires
        v.is_simple(),
        v.wf(),
    ensures
        v.tag() is Some,
        !v.tag()->0.spec_is_structural(),
        spec_decode_value(v.tag()->0, v.payload()) == Ok::<ValueView, ParseError>(v),
{
    let b = v.payload();
    match v {
        ValueView::Integer(i) => {
            lemma_i32_roundtrip(i);
        },
        ValueView::Enum(i) => {
            lemma_i32_roundtrip(i);
        },
        ValueView::DateTime(d) => {
            lemma_u16_roundtrip(d.year);
            assert(b[0] == spec_u16_be(d.year)[0]);
            assert(b[1] == spec_u16_be(d.year)[1]);
            assert(spec_date_time_from(b) == d);
        },
        ValueView::Resolution { cross_feed, feed, units } => {
            lemma_i32_pair_roundtrip(cross_feed, feed, seq![units]);
        },
        ValueView::RangeOfInteger { min, max } => {
            lemma_i32_pair_roundtrip(min, max, Seq::empty());
            assert(b =~= spec_i32_be(min) + spec_i32_be(max) + Seq::<u8>::empty());
        },
        ValueView::TextWithLanguage { language, text } => {
            lemma_with_language_roundtrip(language, text);
        },
        ValueView::NameWithLanguage { language, name } => {
            lemma_with_language_roundtrip(language, name);
        },
        ValueView::TextWithoutLanguage(s) => lemma_text_roundtrip(v.tag()->0, s),
        ValueView::NameWithoutLanguage(s) => lemma_text_roundtrip(v.tag()->0, s),
        ValueView::Keyword(s) => lemma_text_roundtrip(v.tag()->0, s),
        ValueView::Uri(s) => lemma_text_roundtrip(v.tag()->0, s),
        ValueView::UriScheme(s) => lemma_text_roundtrip(v.tag()->0, s),
        ValueView::Charset(s) => lemma_text_roundtrip(v.tag()->0, s),
        ValueView::NaturalLanguage(s) => lemma_text_roundtrip(v.tag()->0, s),
        ValueView::MimeMediaType(s) => lemma_text_roundtrip(v.tag()->0, s),
        _ => {},
    }
}

/// True where both are the same tag, or both are none.
fn same_tag(a: Option<ValueTag>, b: Option<ValueTag>) -> (r: bool)
    ensures
        r == (a == b),
{
    match (a, b) {
        (Some(x), Some(y)) => x == y,
        (None, None) => true,
        _ => false,
    }
}

impl ValueView {
    /// The number of an `Integer`.
    pub open spec fn integer(self) -> Option<i32> {
        match self {
            ValueView::Integer(i) => Some(i),
            _ => None,
        }
    }

    /// The number of an `Enum`.
    pub open spec fn enumeration(self) -> Option<i32> {
        match self {
            ValueView::Enum(i) => Some(i),
            _ => None,
        }
    }

    /// The truth value of a `Boolean`.
    pub open spec fn boolean(self) -> Option<bool> {
        match self {
            ValueView::Boolean(b) => Some(b),
            _ => None,
        }
    }

    /// True of the three markers that stand where a value is absent,
    /// unknown or not supported.
    pub open spec fn is_out_of_band(self) -> bool {
        self is Unsupported || self is Unknown || self is NoValue
    }
}

impl IppValue {
    /// The number of an `Integer`; `None` for every other value.
    pub fn as_integer(&self) -> (r: Option<&i32>)
        ensures
            match r {
                Some(i) => self@ == ValueView::Integer(*i),
                None => !(self@ is Integer),
            },
    {
        match self {
            IppValue::Integer(i) => Some(i),
            _ => None,
        }
    }

    /// The number of an `Enum`; `None` for every other value.
    pub fn as_enum(&self) -> (r: Option<&i32>)
        ensures
            match r {
                Some(i) => self@ == ValueView::Enum(*i),
                None => !(self@ is Enum),
            },
    {
        match self {
            IppValue::Enum(i) => Some(i),
            _ => None,
        }
    }

    /// The truth value of a `Boolean`; `None` for every other value.
    pub fn as_boolean(&self) -> (r: Option<&bool>)
        ensures
            match r {
                Some(b) => self@ == ValueView::Boolean(*b),
                None => !(self@ is Boolean),
            },
    {
        match self {
            IppValue::Boolean(b) => Some(b),
            _ => None,
        }
    }

    /// The text of a value of one of the eight plain string kinds; `None`
    /// for every other value.
    pub fn as_string(&self) -> (r: Option<&String>)
        ensures
            match r {
                Some(s) => self@.text() == Some(s@),
                None => self@.text() is None,
            },
    {
        match self {
            IppValue::TextWithoutLanguage(s) => Some(s),
            IppValue::NameWithoutLanguage(s) => Some(s),
            IppValue::Keyword(s) => Some(s),
            IppValue::Uri(s) => Some(s),
            IppValue::UriScheme(s) => Some(s),
            IppValue::Charset(s) => Some(s),
            IppValue::NaturalLanguage(s) => Some(s),
            IppValue::MimeMediaType(s) => Some(s),
            _ => None,
        }
    }

    /// The language and the text of a text or name with language; `None`
    /// for every other value.
    pub fn as_with_language(&self) -> (r: Option<(&String, &String)>)
        ensures
            match r {
                Some(p) => self@ == (ValueView::TextWithLanguage { language: p.0@, text: p.1@ })
                    || self@ == (ValueView::NameWithLanguage { language: p.0@, name: p.1@ }),
                None => !(self@ is TextWithLanguage) && !(self@ is NameWithLanguage),
            },
    {
        match self {
            IppValue::TextWithLanguage { language, text } => Some((language, text)),
            IppValue::NameWithLanguage { language, name } => Some((language, name)),
            _ => None,
        }
    }

    /// The octets of an `OctetString`; `None` for every other value.
    pub fn as_octets(&self) -> (r: Option<&Vec<u8>>)
        ensures
            match r {
                Some(o) => self@ == ValueView::OctetString(o@),
                None => !(self@ is OctetString),
            },
    {
        match self {
            IppValue::OctetString(o) => Some(o),
            _ => None,
        }
    }

    /// The date and time of a `DateTime`; `None` for every other value.
    pub fn as_date_time(&self) -> (r: Option<&IppDateTime>)
        ensures
            match r {
                Some(d) => self@ == ValueView::DateTime(*d),
                None => !(self@ is DateTime),
            },
    {
        match self {
            IppValue::DateTime(d) => Some(d),
            _ => None,
        }
    }

    /// The two resolutions and the unit of a `Resolution`; `None` for every
    /// other value.
    pub fn as_resolution(&self) -> (r: Option<(i32, i32, u8)>)
        ensures
            match r {
                Some(t) => self@ == (ValueView::Resolution {
                    cross_feed: t.0,
                    feed: t.1,
                    units: t.2,
                }),
                None => !(self@ is Resolution),
            },
    {
        match self {
            IppValue::Resolution { cross_feed, feed, units } => Some((*cross_feed, *feed, *units)),
            _ => None,
        }
    }

    /// The bounds of a `RangeOfInteger`; `None` for every other value.
    pub fn as_range(&self) -> (r: Option<(i32, i32)>)
        ensures
            match r {
                Some(t) => self@ == (ValueView::RangeOfInteger { min: t.0, max: t.1 }),
                None => !(self@ is RangeOfInteger),
            },
    {
        match self {
            IppValue::RangeOfInteger { min, max } => Some((*min, *max)),
            _ => None,
        }
    }

    /// The members of a `Collection`; `None` for every other value.
    pub fn as_collection(&self) -> (r: Option<&Vec<IppAttribute>>)
        ensures
            match r {
                Some(members) => self@ == ValueView::Collection(attributes_view(members@)),
                None => !(self@ is Collection),
            },
    {
        proof {
            lemma_view_of_composite(*self);
        }
        match self {
            IppValue::Collection(members) => Some(members),
            _ => None,
        }
    }

    /// The values of a `ListOf`; `None` for every other value.
    pub fn as_list(&self) -> (r: Option<&Vec<IppValue>>)
        ensures
            match r {
                Some(values) => self@ == ValueView::ListOf(values_view(values@)),
                None => !(self@ is ListOf),
            },
    {
        proof {
            lemma_view_of_composite(*self);
        }
        match self {
            IppValue::ListOf(values) => Some(values),
            _ => None,
        }
    }

    /// True of the three out-of-band markers, from which no typed access
    /// returns anything.
    pub fn is_out_of_band(&self) -> (r: bool)
        ensures
            r == self@.is_out_of_band(),
    {
        match self {
            IppValue::Unsupported | IppValue::Unknown | IppValue::NoValue => true,
            _ => false,
        }
    }

    /// True of a range whose lower bound lies above its upper bound, and of
    /// a list whose values do not all bear the tag of the first.
    pub fn is_anomalous(&self) -> (r: bool)
        ensures
            r == self@.is_anomalous(),
    {
        proof {
            lemma_view_of_composite(*self);
        }
        match self {
            IppValue::RangeOfInteger { min, max } => *min > *max,
            IppValue::ListOf(values) => {
                let mut i: usize = 1;
                while i < values.len()
                    invariant
                        1 <= i,
                        values@.len() > 0 ==> i <= values@.len(),
                        self@ == ValueView::ListOf(values_view(values@)),
                        forall|k: int|
                            0 <= k < i && k < values@.len() ==> (#[trigger] values_view(
                                values@,
                            )[k]).tag() == values_view(values@)[0].tag(),
                    decreases values@.len() - i,
                {
                    if !same_tag(values[i].to_tag(), values[0].to_tag()) {
                        assert(values_view(values@)[i as int].tag() != values_view(values@)[0].tag());
                        return true;
                    }
                    i += 1;
                }
                false
            },
            _ => false,
        }
    }
}

/// No typed access returns anything from an out-of-band marker.
pub proof fn lemma_out_of_band_is_nothing_else(v: ValueView)
    requires
        v.is_out_of_band(),
    ensures
        v.is_simple(),
        v.text() is None,
        !(v is Integer) && !(v is Enum) && !(v is Boolean) && !(v is OctetString),
        !(v is DateTime) && !(v is Resolution) && !(v is RangeOfInteger),
        !(v is TextWithLanguage) && !(v is NameWithLanguage),
        v.payload().len() == 0,
{
}

/// What a value field decodes to is a well-formed simple value, provided the
/// field is no longer than a two-byte length can say.
pub proof fn lemma_decoded_value_wf(tag: ValueTag, b: Seq<u8>)
    requires
        b.len() <= 0xffff,
    ensures
        spec_decode_value(tag, b) matches Ok(v) ==> v.wf() && v.is_simple() && v.payload().len()
            == b.len(),
{
    if let Ok(v) = spec_decode_value(tag, b) {
        match v {
            ValueView::TextWithLanguage { language, text } => {
                lemma_decoded_with_language(b);
            },
            ValueView::NameWithLanguage { language, name } => {
                lemma_decoded_with_language(b);
            },
            ValueView::Integer(_) => {},
            ValueView::Enum(_) => {},
            ValueView::Boolean(_) => {},
            ValueView::OctetString(_) => {},
            ValueView::DateTime(_) => {},
            ValueView::Resolution { .. } => {},
            ValueView::RangeOfInteger { .. } => {},
            ValueView::Unsupported => {},
            ValueView::Unknown => {},
            ValueView::NoValue => {},
            ValueView::Collection(_) => {},
            ValueView::ListOf(_) => {},
            _ => {
                vstd::utf8::decode_utf8_encode_utf8(b);
            },
        }
    }
}

/// A value field that splits into a language and a text is what those two
/// are written as.
pub proof fn lemma_decoded_with_language(b: Seq<u8>)
    requires
        spec_with_language_ok(b),
        b.len() <= 0xffff,
    ensures
        spec_with_language_bytes(
            decode_utf8(spec_with_language_first(b)),
            decode_utf8(spec_with_language_second(b)),
        ).len() == b.len(),
{
    let first = spec_with_language_first(b);
    let second = spec_with_language_second(b);
    vstd::utf8::decode_utf8_encode_utf8(first);
    vstd::utf8::decode_utf8_encode_utf8(second);
}

impl Clone for IppValue {
    /// A copy with the same content, all the way down.
    fn clone(&self) -> (r: Self)
        ensures
            r@ == self@,
        decreases self,
    {
        proof {
            lemma_view_of_composite(*self);
        }
        match self {
            IppValue::Integer(i) => IppValue::Integer(*i),
            IppValue::Enum(i) => IppValue::Enum(*i),
            IppValue::Boolean(b) => IppValue::Boolean(*b),
            IppValue::OctetString(o) => IppValue::OctetString(
                vstd::slice::slice_to_vec(o.as_slice()),
            ),
            IppValue::DateTime(d) => IppValue::DateTime(*d),
            IppValue::Resolution { cross_feed, feed, units } => IppValue::Resolution {
                cross_feed: *cross_feed,
                feed: *feed,
                units: *units,
            },
            IppValue::RangeOfInteger { min, max } => IppValue::RangeOfInteger {
                min: *min,
                max: *max,
            },
            IppValue::TextWithLanguage { language, text } => IppValue::TextWithLanguage {
                language: language.clone(),
                text: text.clone(),
            },
            IppValue::NameWithLanguage { language, name } => IppValue::NameWithLanguage {
                language: language.clone(),
                name: name.clone(),
            },
            IppValue::TextWithoutLanguage(s) => IppValue::TextWithoutLanguage(s.clone()),
            IppValue::NameWithoutLanguage(s) => IppValue::NameWithoutLanguage(s.clone()),
            IppValue::Keyword(s) => IppValue::Keyword(s.clone()),
            IppValue::Uri(s) => IppValue::Uri(s.clone()),
            IppValue::UriScheme(s) => IppValue::UriScheme(s.clone()),
            IppValue::Charset(s) => IppValue::Charset(s.clone()),
            IppValue::NaturalLanguage(s) => IppValue::NaturalLanguage(s.clone()),
            IppValue::MimeMediaType(s) => IppValue::MimeMediaType(s.clone()),
            IppValue::Collection(members) => {
                let mut copy: Vec<IppAttribute> = Vec::new();
                let mut i: usize = 0;
                while i < members.len()
                    invariant
                        0 <= i <= members@.len(),
                        *self == IppValue::Collection(*members),
                        attributes_view(copy@) == attributes_view(members@).subrange(0, i as int),
                    decreases members@.len() - i,
                {
                    let member = &members[i];
                    proof {
                        assert(self->Collection_0 == *members);
                        assert(decreases_to!(*self => self->Collection_0));
                        assert(decreases_to!(*members => members[i as int]));
                        assert(decreases_to!(*member => member.value));
                    }
                    let m = IppAttribute { name: member.name.clone(), value: member.value.clone() };
                    assert(m@ == members@[i as int]@);
                    let ghost before = copy@;
                    copy.push(m);
                    assert(attributes_view(copy@) =~= attributes_view(before).push(m@));
                    i += 1;
                    assert(attributes_view(copy@) =~= attributes_view(members@).subrange(
                        0,
                        i as int,
                    ));
                }
                assert(attributes_view(members@).subrange(0, i as int) =~= attributes_view(
                    members@,
                ));
                let r = IppValue::Collection(copy);
                proof {
                    lemma_view_of_composite(r);
                }
                r
            },
            IppValue::ListOf(values) => {
                let mut copy: Vec<IppValue> = Vec::new();
                let mut i: usize = 0;
                while i < values.len()
                    invariant
                        0 <= i <= values@.len(),
                        *self == IppValue::ListOf(*values),
                        values_view(copy@) == values_view(values@).subrange(0, i as int),
                    decreases values@.len() - i,
                {
                    proof {
                        assert(self->ListOf_0 == *values);
                        assert(decreases_to!(*self => self->ListOf_0));
                        assert(decreases_to!(*values => values[i as int]));
                    }
                    let v = values[i].clone();
                    let ghost before = copy@;
                    copy.push(v);
                    assert(values_view(copy@) =~= values_view(before).push(v@));
                    i += 1;
                    assert(values_view(copy@) =~= values_view(values@).subrange(0, i as int));
                }
                assert(values_view(values@).subrange(0, i as int) =~= values_view(values@));
                let r = IppValue::ListOf(copy);
                proof {
                    lemma_view_of_composite(r);
                }
                r
            },
            IppValue::Unsupported => IppValue::Unsupported,
            IppValue::Unknown => IppValue::Unknown,
            IppValue::NoValue => IppValue::NoValue,
        }
    }
}

impl Clone for IppAttribute {
    /// A copy with the same name and the same value.
    fn clone(&self) -> (r: Self)
        ensures
            r@ == self@,
    {
        IppAttribute { name: self.name.clone(), value: self.value.clone() }
    }
}

} // verus!
