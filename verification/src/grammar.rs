//! The grammar that ties tokens to attributes, stated in both directions:
//! the tokens that a model is written as, and the model that a run of tokens
//! is read as.
//!
//! An attribute is written as the record of its first value, which bears the
//! attribute's name, followed by one record without a name for each further
//! value. A collection is written as an opening record, then for each member
//! a record that carries the member's name in its value field followed by the
//! member's value or values, then a closing record. Inside a collection no
//! record bears a name, so a further value of a member is known by its place:
//! it is any record that neither names a member nor closes the collection.
//!
//! Reading goes through the tokens once, in order, and stops at the first
//! fault. A stream that is cut short or holds an unknown tag still has
//! tokens before that place; its error is handed to the reading functions as
//! `tail` and is met where the tokens run out, not before.
use vstd::prelude::*;
use vstd::utf8::{decode_utf8, encode_utf8, valid_utf8};
use crate::attribute::GroupView;
use crate::error::ParseError;
use crate::header::IppHeader;
use crate::tag::{DelimiterTag, ValueTag};
use crate::token::{record, spec_lex, tokens_bytes, TokenView, END_OF_ATTRIBUTES};
use crate::value::{spec_decode_value, AttributeView, ValueView};

verus! {

/// The tokens of a value that stands under `name`.
pub open spec fn value_tokens(name: Seq<u8>, v: ValueView) -> Seq<TokenView>
    decreases v,
{
    match v {
        ValueView::ListOf(values) => list_tokens(name, values),
        ValueView::Collection(members) => seq![
            record(ValueTag::BegCollection, name, Seq::empty()),
        ] + members_tokens(members) + seq![
            record(ValueTag::EndCollection, Seq::empty(), Seq::empty()),
        ],
        _ => seq![record(v.tag()->0, name, v.payload())],
    }
}

/// The tokens of the values of a list: the first under `name`, the others
/// under no name.
pub open spec fn list_tokens(name: Seq<u8>, values: Seq<ValueView>) -> Seq<TokenView>
    decreases values,
{
    if values.len() == 0 {
        Seq::empty()
    } else {
        value_tokens(name, values[0]) + more_tokens(values.drop_first())
    }
}

/// The tokens of further values, each under no name.
pub open spec fn more_tokens(values: Seq<ValueView>) -> Seq<TokenView>
    decreases values,
{
    if values.len() == 0 {
        Seq::empty()
    } else {
        more_tokens(values.drop_last()) + value_tokens(Seq::empty(), values.last())
    }
}

/// The tokens of one member of a collection.
pub open spec fn member_tokens(member: AttributeView) -> Seq<TokenView>
    decreases member,
{
    seq![record(ValueTag::MemberAttrName, Seq::empty(), encode_utf8(member.name))] + value_tokens(
        Seq::empty(),
        member.value,
    )
}

/// The tokens of the members of a collection.
pub open spec fn members_tokens(members: Seq<AttributeView>) -> Seq<TokenView>
    decreases members,
{
    if members.len() == 0 {
        Seq::empty()
    } else {
        members_tokens(members.drop_last()) + member_tokens(members.last())
    }
}

/// The tokens of an attribute of a group.
pub open spec fn attribute_tokens(attribute: AttributeView) -> Seq<TokenView> {
    value_tokens(encode_utf8(attribute.name), attribute.value)
}

/// The tokens of the attributes of a group.
pub open spec fn attributes_tokens(attributes: Seq<AttributeView>) -> Seq<TokenView>
    decreases attributes.len(),
{
    if attributes.len() == 0 {
        Seq::empty()
    } else {
        attributes_tokens(attributes.drop_last()) + attribute_tokens(attributes.last())
    }
}

/// The tokens of a group: its delimiter, then its attributes.
pub open spec fn group_tokens(group: GroupView) -> Seq<TokenView> {
    seq![TokenView::Group(group.tag)] + attributes_tokens(group.attributes)
}

/// The tokens of the groups of a message.
pub open spec fn groups_tokens(groups: Seq<GroupView>) -> Seq<TokenView>
    decreases groups.len(),
{
    if groups.len() == 0 {
        Seq::empty()
    } else {
        groups_tokens(groups.drop_last()) + group_tokens(groups.last())
    }
}

/// The bytes of the attribute section of a message: every group in order,
/// then the end-of-attributes tag.
pub open spec fn spec_attributes_bytes(groups: Seq<GroupView>) -> Seq<u8> {
    tokens_bytes(groups_tokens(groups)) + seq![END_OF_ATTRIBUTES]
}

/// The bytes of a message without its payload: the header, then the
/// attribute section.
pub open spec fn spec_message_bytes(header: IppHeader, groups: Seq<GroupView>) -> Seq<u8> {
    header.spec_bytes() + spec_attributes_bytes(groups)
}

/// True of an attribute of a group that the wire format can carry and give
/// back: its name is not empty and fits the two-byte length, and its value is
/// well formed.
pub open spec fn attribute_wf(attribute: AttributeView) -> bool {
    &&& 0 < encode_utf8(attribute.name).len() <= 0xffff
    &&& attribute.value.wf()
}

/// True of a group that the wire format can carry and give back: its tag is
/// not the end-of-attributes tag, under which nothing stands, and each of
/// its attributes is well formed.
pub open spec fn group_wf(group: GroupView) -> bool {
    &&& group.tag != DelimiterTag::EndOfAttributes
    &&& forall|i: int| 0 <= i < group.attributes.len() ==> attribute_wf(#[trigger] group.attributes[i])
}

/// True where every group is well formed.
pub open spec fn groups_wf(groups: Seq<GroupView>) -> bool {
    forall|i: int| 0 <= i < groups.len() ==> group_wf(#[trigger] groups[i])
}

/// True where the token at `i` is a further value of the value before it.
/// In a group that is a record without a name; in a collection it is a record
/// that neither names a member nor closes the collection.
pub open spec fn is_continuation(ts: Seq<TokenView>, i: int, nested: bool) -> bool {
    &&& 0 <= i < ts.len()
    &&& ts[i] matches TokenView::Value(r)
    &&& if nested {
        r.tag != ValueTag::MemberAttrName && r.tag != ValueTag::EndCollection
    } else {
        r.name.len() == 0
    }
}

/// The error of the stream, if it has one: what reading stopped on where the
/// tokens do not end with the end-of-attributes tag.
pub open spec fn spec_tail(end: Result<int, ParseError>) -> Option<ParseError> {
    match end {
        Ok(_) => None,
        Err(e) => Some(e),
    }
}

/// What is found where a token must stand and the tokens have run out: the
/// error of the stream, or else the end-of-attributes tag, which is an
/// `UnexpectedTag` there.
pub open spec fn spec_missing(tail: Option<ParseError>) -> ParseError {
    match tail {
        Some(e) => e,
        None => ParseError::UnexpectedTag(END_OF_ATTRIBUTES),
    }
}

/// The single value that starts at token `i`, and the place behind it. A
/// record that opens a collection brings the whole collection; any other
/// record is decoded by its tag. A delimiter where a value must stand is an
/// `UnexpectedTag`.
///
/// Here and below, `tail` is the error of the stream, if it has one. It is
/// met only where the tokens have run out, so that a fault among the tokens
/// comes before it, as it does in the stream.
pub open spec fn spec_value(ts: Seq<TokenView>, i: int, tail: Option<ParseError>) -> Result<
    (ValueView, int),
    ParseError,
>
    decreases ts.len() - i, 0nat,
{
    if 0 <= i < ts.len() {
        match ts[i] {
            TokenView::Group(d) => Err(ParseError::UnexpectedTag(d.spec_to_u8())),
            TokenView::Value(r) => if r.tag == ValueTag::BegCollection {
                match spec_members(ts, i + 1, tail) {
                    Err(e) => Err(e),
                    Ok((members, next)) => Ok((ValueView::Collection(members), next)),
                }
            } else {
                match spec_decode_value(r.tag, r.value) {
                    Err(e) => Err(e),
                    Ok(v) => Ok((v, i + 1)),
                }
            },
        }
    } else {
        Err(spec_missing(tail))
    }
}

/// The members of a collection from token `i` up to the record that closes
/// it, and the place behind that record.
pub open spec fn spec_members(ts: Seq<TokenView>, i: int, tail: Option<ParseError>) -> Result<
    (Seq<AttributeView>, int),
    ParseError,
>
    decreases ts.len() - i, 2nat,
{
    if 0 <= i < ts.len() {
        match ts[i] {
            TokenView::Group(d) => Err(ParseError::UnexpectedTag(d.spec_to_u8())),
            TokenView::Value(r) => if r.tag == ValueTag::EndCollection {
                Ok((Seq::empty(), i + 1))
            } else if r.tag == ValueTag::MemberAttrName {
                if !valid_utf8(r.value) {
                    Err(ParseError::InvalidValue)
                } else {
                    match spec_values(ts, i + 1, true, tail) {
                        Err(e) => Err(e),
                        Ok((v, next)) => if i < next <= ts.len() {
                            match spec_members(ts, next, tail) {
                                Err(e) => Err(e),
                                Ok((members, end)) => Ok(
                                    (
                                        seq![AttributeView { name: decode_utf8(r.value), value: v }]
                                            + members,
                                        end,
                                    ),
                                ),
                            }
                        } else {
                            Err(ParseError::InvalidValue)
                        },
                    }
                }
            } else {
                Err(ParseError::UnexpectedTag(r.tag.spec_to_u8()))
            },
        }
    } else {
        Err(spec_missing(tail))
    }
}

/// The value of an attribute or member whose first record is token `i`: that
/// value alone where no further value follows, else the list of them all.
pub open spec fn spec_values(
    ts: Seq<TokenView>,
    i: int,
    nested: bool,
    tail: Option<ParseError>,
) -> Result<(ValueView, int), ParseError>
    decreases ts.len() - i, 1nat,
{
    match spec_value(ts, i, tail) {
        Err(e) => Err(e),
        Ok((first, next)) => if i < next <= ts.len() {
            match spec_more(ts, next, nested, tail) {
                Err(e) => Err(e),
                Ok((more, end)) => Ok(
                    (
                        if more.len() == 0 {
                            first
                        } else {
                            ValueView::ListOf(seq![first] + more)
                        },
                        end,
                    ),
                ),
            }
        } else {
            Err(ParseError::InvalidValue)
        },
    }
}

/// The further values from token `i` on, and the place behind the last.
/// Whether a further value follows is seen from the next token, so where the
/// tokens have run out the error of the stream, if there is one, is met.
pub open spec fn spec_more(
    ts: Seq<TokenView>,
    i: int,
    nested: bool,
    tail: Option<ParseError>,
) -> Result<(Seq<ValueView>, int), ParseError>
    decreases ts.len() - i, 1nat,
{
    if is_continuation(ts, i, nested) {
        match spec_value(ts, i, tail) {
            Err(e) => Err(e),
            Ok((v, next)) => if i < next <= ts.len() {
                match spec_more(ts, next, nested, tail) {
                    Err(e) => Err(e),
                    Ok((more, end)) => Ok((seq![v] + more, end)),
                }
            } else {
                Err(ParseError::InvalidValue)
            },
        }
    } else if i >= ts.len() && tail is Some {
        Err(tail->0)
    } else {
        Ok((Seq::empty(), i))
    }
}

/// The attributes of a group from token `i` up to the next delimiter or the
/// end of the tokens, and that place. A record without a name where an
/// attribute must start is an `OrphanContinuation`.
pub open spec fn spec_attributes(ts: Seq<TokenView>, i: int, tail: Option<ParseError>) -> Result<
    (Seq<AttributeView>, int),
    ParseError,
>
    decreases ts.len() - i,
{
    if 0 <= i < ts.len() {
        match ts[i] {
            TokenView::Group(_) => Ok((Seq::empty(), i)),
            TokenView::Value(r) => if r.name.len() == 0 {
                Err(ParseError::OrphanContinuation)
            } else if !valid_utf8(r.name) {
                Err(ParseError::InvalidValue)
            } else {
                match spec_values(ts, i, false, tail) {
                    Err(e) => Err(e),
                    Ok((v, next)) => if i < next <= ts.len() {
                        match spec_attributes(ts, next, tail) {
                            Err(e) => Err(e),
                            Ok((attributes, end)) => Ok(
                                (
                                    seq![AttributeView { name: decode_utf8(r.name), value: v }]
                                        + attributes,
                                    end,
                                ),
                            ),
                        }
                    } else {
                        Err(ParseError::InvalidValue)
                    },
                }
            },
        }
    } else {
        match tail {
            Some(e) => Err(e),
            None => Ok((Seq::empty(), i)),
        }
    }
}

/// The groups from token `i` on. A record before the first delimiter is an
/// `UnexpectedTag`.
pub open spec fn spec_groups(ts: Seq<TokenView>, i: int, tail: Option<ParseError>) -> Result<
    Seq<GroupView>,
    ParseError,
>
    decreases ts.len() - i,
{
    if 0 <= i < ts.len() {
        match ts[i] {
            TokenView::Value(r) => Err(ParseError::UnexpectedTag(r.tag.spec_to_u8())),
            TokenView::Group(d) => match spec_attributes(ts, i + 1, tail) {
                Err(e) => Err(e),
                Ok((attributes, next)) => if i < next <= ts.len() {
                    match spec_groups(ts, next, tail) {
                        Err(e) => Err(e),
                        Ok(groups) => Ok(seq![GroupView { tag: d, attributes }] + groups),
                    }
                } else {
                    Err(ParseError::InvalidValue)
                },
            },
        }
    } else {
        match tail {
            Some(e) => Err(e),
            None => Ok(Seq::empty()),
        }
    }
}

/// What an attribute section decodes to: its groups, and the place behind
/// the end-of-attributes tag, where the payload starts. The stream is read
/// tag by tag, and the first fault on the way is the error: a record cut
/// short or an unknown tag where it stands, a fault of the grammar or of a
/// value at the record that brings it.
pub open spec fn spec_parse_attributes(s: Seq<u8>, pos: int) -> Result<
    (Seq<GroupView>, int),
    ParseError,
> {
    let (ts, end) = spec_lex(s, pos);
    match spec_groups(ts, 0, spec_tail(end)) {
        Err(e) => Err(e),
        Ok(groups) => match end {
            Err(e) => Err(e),
            Ok(at) => Ok((groups, at)),
        },
    }
}

/// What a byte stream decodes to as a message: the header, the groups, and
/// the place where the payload starts. A stream shorter than a header is a
/// `TruncatedHeader`; behind the header the attribute section is read.
pub open spec fn spec_parse_message(s: Seq<u8>) -> Result<
    (IppHeader, Seq<GroupView>, int),
    ParseError,
> {
    match IppHeader::spec_parse(s) {
        Err(e) => Err(e),
        Ok(header) => match spec_parse_attributes(s, 8) {
            Err(e) => Err(e),
            Ok((groups, end)) => Ok((header, groups, end)),
        },
    }
}

/// Reading a value moves forward and stays inside the tokens. With the
/// lemmas below this shows that the tests on the next place in the
/// definitions above always hold; they stand there so that the definitions
/// are seen to terminate.
pub proof fn lemma_value_progress(ts: Seq<TokenView>, i: int, tail: Option<ParseError>)
    ensures
        spec_value(ts, i, tail) matches Ok(found) ==> i < found.1 <= ts.len(),
    decreases ts.len() - i,
{
    if 0 <= i < ts.len() {
        if let TokenView::Value(r) = ts[i] {
            if r.tag == ValueTag::BegCollection {
                lemma_members_progress(ts, i + 1, tail);
            }
        }
    }
}

/// Reading the members of a collection moves forward and stays inside the
/// tokens.
pub proof fn lemma_members_progress(ts: Seq<TokenView>, i: int, tail: Option<ParseError>)
    ensures
        spec_members(ts, i, tail) matches Ok(found) ==> i < found.1 <= ts.len(),
    decreases ts.len() - i,
{
    if 0 <= i < ts.len() {
        if let TokenView::Value(r) = ts[i] {
            if r.tag == ValueTag::MemberAttrName && valid_utf8(r.value) {
                if let Ok((v, next)) = spec_values(ts, i + 1, true, tail) {
                    if i < next <= ts.len() {
                        lemma_members_progress(ts, next, tail);
                    }
                }
            }
        }
    }
}

/// Reading further values never moves back and stays inside the tokens.
pub proof fn lemma_more_progress(ts: Seq<TokenView>, i: int, nested: bool, tail: Option<ParseError>)
    requires
        0 <= i <= ts.len(),
    ensures
        spec_more(ts, i, nested, tail) matches Ok(found) ==> i <= found.1 <= ts.len(),
    decreases ts.len() - i,
{
    if is_continuation(ts, i, nested) {
        if let Ok((v, next)) = spec_value(ts, i, tail) {
            if i < next <= ts.len() {
                lemma_more_progress(ts, next, nested, tail);
            }
        }
    }
}

/// Reading the value or values of an attribute moves forward and stays
/// inside the tokens.
pub proof fn lemma_values_progress(
    ts: Seq<TokenView>,
    i: int,
    nested: bool,
    tail: Option<ParseError>,
)
    ensures
        spec_values(ts, i, nested, tail) matches Ok(found) ==> i < found.1 <= ts.len(),
{
    if let Ok((v, next)) = spec_value(ts, i, tail) {
        if i < next <= ts.len() {
            lemma_more_progress(ts, next, nested, tail);
        }
    }
}

/// Reading the attributes of a group never moves back and stays inside the
/// tokens.
pub proof fn lemma_attributes_progress(ts: Seq<TokenView>, i: int, tail: Option<ParseError>)
    requires
        0 <= i <= ts.len(),
    ensures
        spec_attributes(ts, i, tail) matches Ok(found) ==> i <= found.1 <= ts.len(),
    decreases ts.len() - i,
{
    if 0 <= i < ts.len() {
        if let TokenView::Value(r) = ts[i] {
            if r.name.len() != 0 && valid_utf8(r.name) {
                if let Ok((v, next)) = spec_values(ts, i, false, tail) {
                    if i < next <= ts.len() {
                        lemma_attributes_progress(ts, next, tail);
                    }
                }
            }
        }
    }
}

/// Where the stream has an error, reading the groups fails: the tokens run
/// out before the end-of-attributes tag, and the error stands there.
pub proof fn lemma_groups_meet_tail(ts: Seq<TokenView>, i: int, e: ParseError)
    ensures
        spec_groups(ts, i, Some(e)) is Err,
    decreases ts.len() - i,
{
    if 0 <= i < ts.len() {
        if let TokenView::Group(d) = ts[i] {
            if let Ok((attributes, next)) = spec_attributes(ts, i + 1, Some(e)) {
                if i < next <= ts.len() {
                    lemma_groups_meet_tail(ts, next, e);
                }
            }
        }
    }
}

} // verus!
