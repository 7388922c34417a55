//! Reading bytes back into the model. The stream is first split into tokens,
//! then the tokens are read as groups; each function here computes what the
//! function of the same name in the grammar states.
use vstd::prelude::*;
use crate::attribute::{groups_view, GroupView, IppAttributeGroup, IppAttributes};
use crate::error::ParseError;
use crate::grammar::{
    groups_wf, is_continuation, spec_attributes, spec_groups, spec_members, spec_missing,
    spec_more, spec_parse_attributes, spec_tail, spec_value, spec_values,
};
use crate::tag::ValueTag;
use crate::text::string_from_utf8;
use crate::wellformed::lemma_parsed_attributes_wf;
use crate::token::{end_view, tokenize, tokens_in, tokens_view, Token, END_OF_ATTRIBUTES};
use crate::value::{
    attributes_view, lemma_view_of_composite, values_view, AttributeView, IppAttribute, IppValue,
    ValueView,
};

verus! {

/// A result of reading a run, with what was read before it put in front.
spec fn prepend<T>(done: Seq<T>, r: Result<(Seq<T>, int), ParseError>) -> Result<
    (Seq<T>, int),
    ParseError,
> {
    match r {
        Ok((more, end)) => Ok((done + more, end)),
        Err(e) => Err(e),
    }
}

/// A result of reading groups, with the groups read before it put in front.
spec fn prepend_groups(done: Seq<GroupView>, r: Result<Seq<GroupView>, ParseError>) -> Result<
    Seq<GroupView>,
    ParseError,
> {
    match r {
        Ok(more) => Ok(done + more),
        Err(e) => Err(e),
    }
}

/// What is found where a token must stand and the tokens have run out.
fn missing(tail: Option<ParseError>) -> (e: ParseError)
    ensures
        e == spec_missing(tail),
{
    match tail {
        Some(e) => e,
        None => ParseError::UnexpectedTag(END_OF_ATTRIBUTES),
    }
}

/// Reads the single value that starts at token `i`.
fn parse_value(data: &[u8], tokens: &Vec<Token>, i: usize, tail: Option<ParseError>) -> (r: Result<
    (IppValue, usize),
    ParseError,
>)
    requires
        tokens_in(tokens@, data@.len()),
    ensures
        match r {
            Ok((v, next)) => i < next <= tokens@.len() && spec_value(
                tokens_view(tokens@, data@),
                i as int,
                tail,
            ) == Ok::<(ValueView, int), ParseError>((v@, next as int)),
            Err(e) => spec_value(tokens_view(tokens@, data@), i as int, tail) == Err::<
                (ValueView, int),
                ParseError,
            >(e),
        },
    decreases tokens@.len() - i, 0nat,
{
    if i >= tokens.len() {
        return Err(missing(tail));
    }
    match tokens[i] {
        Token::Group(d) => Err(ParseError::UnexpectedTag(d.to_u8())),
        Token::Value { tag, name, value } => {
            if tag == ValueTag::BegCollection {
                match parse_members(data, tokens, i + 1, tail) {
                    Err(e) => Err(e),
                    Ok((members, next)) => {
                        let v = IppValue::Collection(members);
                        proof {
                            lemma_view_of_composite(v);
                        }
                        Ok((v, next))
                    },
                }
            } else {
                match IppValue::from_bytes(tag, value.slice(data)) {
                    Err(e) => Err(e),
                    Ok(v) => Ok((v, i + 1)),
                }
            }
        },
    }
}

/// Reads the members of a collection from token `i` up to the record that
/// closes it.
fn parse_members(data: &[u8], tokens: &Vec<Token>, i: usize, tail: Option<ParseError>) -> (r:
    Result<(Vec<IppAttribute>, usize), ParseError>)
    requires
        tokens_in(tokens@, data@.len()),
    ensures
        match r {
            Ok((members, next)) => i < next <= tokens@.len() && spec_members(
                tokens_view(tokens@, data@),
                i as int,
                tail,
            ) == Ok::<(Seq<AttributeView>, int), ParseError>(
                (attributes_view(members@), next as int),
            ),
            Err(e) => spec_members(tokens_view(tokens@, data@), i as int, tail) == Err::<
                (Seq<AttributeView>, int),
                ParseError,
            >(e),
        },
    decreases tokens@.len() - i, 2nat,
{
    let ghost ts = tokens_view(tokens@, data@);
    let mut members: Vec<IppAttribute> = Vec::new();
    let mut at: usize = i;
    proof {
        assert(attributes_view(members@) =~= Seq::empty());
        match spec_members(ts, i as int, tail) {
            Ok((more, end)) => {
                assert(Seq::<AttributeView>::empty() + more =~= more);
            },
            Err(e) => {},
        }
    }
    loop
        invariant
            i <= at,
            ts == tokens_view(tokens@, data@),
            tokens_in(tokens@, data@.len()),
            spec_members(ts, i as int, tail) == prepend(
                attributes_view(members@),
                spec_members(ts, at as int, tail),
            ),
        decreases tokens@.len() - at,
    {
        if at >= tokens.len() {
            return Err(missing(tail));
        }
        match tokens[at] {
            Token::Group(d) => {
                return Err(ParseError::UnexpectedTag(d.to_u8()));
            },
            Token::Value { tag, name, value } => {
                if tag == ValueTag::EndCollection {
                    assert(attributes_view(members@) + Seq::<AttributeView>::empty()
                        =~= attributes_view(members@));
                    return Ok((members, at + 1));
                } else if tag == ValueTag::MemberAttrName {
                    let member_name = match string_from_utf8(value.slice(data)) {
                        Some(s) => s,
                        None => {
                            return Err(ParseError::InvalidValue);
                        },
                    };
                    match parse_values(data, tokens, at + 1, true, tail) {
                        Err(e) => {
                            return Err(e);
                        },
                        Ok((v, next)) => {
                            let member = IppAttribute { name: member_name, value: v };
                            proof {
                                let done = attributes_view(members@);
                                let more = attributes_view(members@.push(member));
                                assert(more =~= done + seq![member@]);
                                match spec_members(ts, next as int, tail) {
                                    Ok((rest, end)) => {
                                        assert(done + (seq![member@] + rest) =~= more + rest);
                                    },
                                    Err(e) => {},
                                }
                            }
                            members.push(member);
                            at = next;
                        },
                    }
                } else {
                    return Err(ParseError::UnexpectedTag(tag.to_u8()));
                }
            },
        }
    }
}

/// True where the token at `i` is a further value of the value before it.
fn continues(data: &[u8], tokens: &Vec<Token>, i: usize, nested: bool) -> (r: bool)
    requires
        tokens_in(tokens@, data@.len()),
    ensures
        r == is_continuation(tokens_view(tokens@, data@), i as int, nested),
{
    if i >= tokens.len() {
        return false;
    }
    match tokens[i] {
        Token::Group(_) => false,
        Token::Value { tag, name, value } => {
            if nested {
                tag != ValueTag::MemberAttrName && tag != ValueTag::EndCollection
            } else {
                name.end == name.start
            }
        },
    }
}

/// Reads the value of an attribute or member whose first record is token
/// `i`, together with every further value that follows it.
fn parse_values(
    data: &[u8],
    tokens: &Vec<Token>,
    i: usize,
    nested: bool,
    tail: Option<ParseError>,
) -> (r: Result<(IppValue, usize), ParseError>)
    requires
        tokens_in(tokens@, data@.len()),
    ensures
        match r {
            Ok((v, next)) => i < next <= tokens@.len() && spec_values(
                tokens_view(tokens@, data@),
                i as int,
                nested,
                tail,
            ) == Ok::<(ValueView, int), ParseError>((v@, next as int)),
            Err(e) => spec_values(tokens_view(tokens@, data@), i as int, nested, tail) == Err::<
                (ValueView, int),
                ParseError,
            >(e),
        },
    decreases tokens@.len() - i, 1nat,
{
    let ghost ts = tokens_view(tokens@, data@);
    let (first, start) = match parse_value(data, tokens, i, tail) {
        Err(e) => {
            return Err(e);
        },
        Ok(found) => found,
    };
    if !continues(data, tokens, start, nested) {
        if start >= tokens.len() {
            if let Some(e) = tail {
                return Err(e);
            }
        }
        return Ok((first, start));
    }
    let ghost first_view = first@;
    let mut values: Vec<IppValue> = Vec::new();
    values.push(first);
    let mut at: usize = start;
    proof {
        assert(values_view(values@).drop_first() =~= Seq::empty());
        match spec_more(ts, start as int, nested, tail) {
            Ok((more, end)) => {
                assert(Seq::<ValueView>::empty() + more =~= more);
            },
            Err(e) => {},
        }
    }
    while continues(data, tokens, at, nested)
        invariant
            i < start <= at <= tokens@.len(),
            ts == tokens_view(tokens@, data@),
            tokens_in(tokens@, data@.len()),
            values@.len() >= 1,
            at > start ==> values@.len() >= 2,
            is_continuation(ts, start as int, nested),
            values@[0]@ == first_view,
            spec_value(ts, i as int, tail) == Ok::<(ValueView, int), ParseError>(
                (first_view, start as int),
            ),
            spec_more(ts, start as int, nested, tail) == prepend(
                values_view(values@).drop_first(),
                spec_more(ts, at as int, nested, tail),
            ),
        decreases tokens@.len() - at,
    {
        match parse_value(data, tokens, at, tail) {
            Err(e) => {
                assert(is_continuation(ts, at as int, nested));
                assert(spec_more(ts, at as int, nested, tail) == Err::<
                    (Seq<ValueView>, int),
                    ParseError,
                >(e));
                assert(spec_more(ts, start as int, nested, tail) == Err::<
                    (Seq<ValueView>, int),
                    ParseError,
                >(e));
                return Err(e);
            },
            Ok((v, next)) => {
                proof {
                    assert(is_continuation(ts, at as int, nested));
                    let done = values_view(values@).drop_first();
                    let more = values_view(values@.push(v)).drop_first();
                    assert(more =~= done + seq![v@]);
                    match spec_more(ts, next as int, nested, tail) {
                        Ok((rest, end)) => {
                            assert(done + (seq![v@] + rest) =~= more + rest);
                        },
                        Err(e) => {},
                    }
                }
                values.push(v);
                at = next;
            },
        }
    }
    if at >= tokens.len() {
        if let Some(e) = tail {
            assert(spec_more(ts, at as int, nested, tail) == Err::<
                (Seq<ValueView>, int),
                ParseError,
            >(e));
            return Err(e);
        }
    }
    let v = IppValue::ListOf(values);
    proof {
        let more = values_view(values@).drop_first();
        assert(more + Seq::<ValueView>::empty() =~= more);
        assert(spec_more(ts, start as int, nested, tail) == Ok::<
            (Seq<ValueView>, int),
            ParseError,
        >((more, at as int)));
        assert(seq![first_view] + more =~= values_view(values@));
        lemma_view_of_composite(v);
    }
    Ok((v, at))
}

/// Reads the attributes of a group from token `i` up to the next delimiter
/// or the end of the tokens.
fn parse_attributes(data: &[u8], tokens: &Vec<Token>, i: usize, tail: Option<ParseError>) -> (r:
    Result<(Vec<IppAttribute>, usize), ParseError>)
    requires
        tokens_in(tokens@, data@.len()),
        i <= tokens@.len(),
    ensures
        match r {
            Ok((attributes, next)) => i <= next <= tokens@.len() && spec_attributes(
                tokens_view(tokens@, data@),
                i as int,
                tail,
            ) == Ok::<(Seq<AttributeView>, int), ParseError>(
                (attributes_view(attributes@), next as int),
            ),
            Err(e) => spec_attributes(tokens_view(tokens@, data@), i as int, tail) == Err::<
                (Seq<AttributeView>, int),
                ParseError,
            >(e),
        },
{
    let ghost ts = tokens_view(tokens@, data@);
    let mut attributes: Vec<IppAttribute> = Vec::new();
    let mut at: usize = i;
    proof {
        assert(attributes_view(attributes@) =~= Seq::empty());
        match spec_attributes(ts, i as int, tail) {
            Ok((more, end)) => {
                assert(Seq::<AttributeView>::empty() + more =~= more);
            },
            Err(e) => {},
        }
    }
    while at < tokens.len()
        invariant
            i <= at <= tokens@.len(),
            ts == tokens_view(tokens@, data@),
            tokens_in(tokens@, data@.len()),
            spec_attributes(ts, i as int, tail) == prepend(
                attributes_view(attributes@),
                spec_attributes(ts, at as int, tail),
            ),
        decreases tokens@.len() - at,
    {
        match tokens[at] {
            Token::Group(_) => {
                assert(attributes_view(attributes@) + Seq::<AttributeView>::empty()
                    =~= attributes_view(attributes@));
                return Ok((attributes, at));
            },
            Token::Value { tag, name, value } => {
                if name.end == name.start {
                    return Err(ParseError::OrphanContinuation);
                }
                let attribute_name = match string_from_utf8(name.slice(data)) {
                    Some(s) => s,
                    None => {
                        return Err(ParseError::InvalidValue);
                    },
                };
                match parse_values(data, tokens, at, false, tail) {
                    Err(e) => {
                        return Err(e);
                    },
                    Ok((v, next)) => {
                        let attribute = IppAttribute { name: attribute_name, value: v };
                        proof {
                            let done = attributes_view(attributes@);
                            let more = attributes_view(attributes@.push(attribute));
                            assert(more =~= done + seq![attribute@]);
                            match spec_attributes(ts, next as int, tail) {
                                Ok((rest, end)) => {
                                    assert(done + (seq![attribute@] + rest) =~= more + rest);
                                },
                                Err(e) => {},
                            }
                        }
                        attributes.push(attribute);
                        at = next;
                    },
                }
            },
        }
    }
    if let Some(e) = tail {
        return Err(e);
    }
    assert(attributes_view(attributes@) + Seq::<AttributeView>::empty() =~= attributes_view(
        attributes@,
    ));
    Ok((attributes, at))
}

/// Reads the tokens of an attribute section as groups.
pub(crate) fn parse_groups(data: &[u8], tokens: &Vec<Token>, tail: Option<ParseError>) -> (r:
    Result<IppAttributes, ParseError>)
    requires
        tokens_in(tokens@, data@.len()),
    ensures
        match r {
            Ok(attributes) => spec_groups(tokens_view(tokens@, data@), 0, tail) == Ok::<
                Seq<GroupView>,
                ParseError,
            >(attributes@),
            Err(e) => spec_groups(tokens_view(tokens@, data@), 0, tail) == Err::<
                Seq<GroupView>,
                ParseError,
            >(e),
        },
{
    let ghost ts = tokens_view(tokens@, data@);
    let mut groups: Vec<IppAttributeGroup> = Vec::new();
    let mut at: usize = 0;
    proof {
        assert(groups_view(groups@) =~= Seq::empty());
        match spec_groups(ts, 0, tail) {
            Ok(more) => {
                assert(Seq::<GroupView>::empty() + more =~= more);
            },
            Err(e) => {},
        }
    }
    while at < tokens.len()
        invariant
            0 <= at <= tokens@.len(),
            ts == tokens_view(tokens@, data@),
            tokens_in(tokens@, data@.len()),
            spec_groups(ts, 0, tail) == prepend_groups(
                groups_view(groups@),
                spec_groups(ts, at as int, tail),
            ),
        decreases tokens@.len() - at,
    {
        match tokens[at] {
            Token::Value { tag, name, value } => {
                return Err(ParseError::UnexpectedTag(tag.to_u8()));
            },
            Token::Group(d) => {
                match parse_attributes(data, tokens, at + 1, tail) {
                    Err(e) => {
                        return Err(e);
                    },
                    Ok((attributes, next)) => {
                        let group = IppAttributeGroup { tag: d, attributes };
                        proof {
                            let done = groups_view(groups@);
                            let more = groups_view(groups@.push(group));
                            assert(more =~= done + seq![group@]);
                            match spec_groups(ts, next as int, tail) {
                                Ok(rest) => {
                                    assert(done + (seq![group@] + rest) =~= more + rest);
                                },
                                Err(e) => {},
                            }
                        }
                        groups.push(group);
                        at = next;
                    },
                }
            },
        }
    }
    if let Some(e) = tail {
        return Err(e);
    }
    assert(groups_view(groups@) + Seq::<GroupView>::empty() =~= groups_view(groups@));
    Ok(IppAttributes { groups })
}

impl IppAttributes {
    /// Decodes the attribute section that starts at `pos`: the groups, and
    /// the place behind the end-of-attributes tag, where a payload starts.
    /// Decoded groups are well formed. On any failure nothing of what was
    /// read is handed out.
    pub fn from_bytes(data: &[u8], pos: usize) -> (r: Result<(IppAttributes, usize), ParseError>)
        ensures
            match r {
                Ok((attributes, end)) => pos < end <= data@.len() && groups_wf(attributes@)
                    && spec_parse_attributes(data@, pos as int) == Ok::<
                    (Seq<GroupView>, int),
                    ParseError,
                >((attributes@, end as int)),
                Err(e) => spec_parse_attributes(data@, pos as int) == Err::<
                    (Seq<GroupView>, int),
                    ParseError,
                >(e),
            },
    {
        proof {
            lemma_parsed_attributes_wf(data@, pos as int);
        }
        let (tokens, end) = tokenize(data, pos);
        let tail = match end {
            Ok(_) => None,
            Err(e) => Some(e),
        };
        assert(tail == spec_tail(end_view(end)));
        match parse_groups(data, &tokens, tail) {
            Err(e) => Err(e),
            Ok(attributes) => match end {
                Err(e) => Err(e),
                Ok(at) => Ok((attributes, at)),
            },
        }
    }
}

} // verus!
