//! The codec's central law: reading is the inverse of writing. Whatever
//! well-formed model is written out, reading the bytes gives that model
//! back, with its groups, attributes, values and members in their order.
use vstd::prelude::*;
use vstd::utf8::encode_utf8;
use crate::attribute::{spec_add, GroupView};
use crate::error::ParseError;
use crate::grammar::{
    attribute_tokens, attribute_wf, attributes_tokens, group_tokens, group_wf, groups_tokens,
    groups_wf, is_continuation, member_tokens, members_tokens, more_tokens,
    spec_attributes, spec_attributes_bytes, spec_groups, spec_members, spec_message_bytes,
    spec_more, spec_parse_attributes, spec_parse_message, spec_value, spec_values, value_tokens,
};
use crate::header::IppHeader;
use crate::tag::{DelimiterTag, ValueTag};
use crate::token::{
    lemma_lex_roundtrip, lemma_lex_truncated, lemma_lex_unknown_tag, record, spec_lex,
    tokens_bytes, tokens_wf, TokenView, END_OF_ATTRIBUTES,
};
use crate::value::{lemma_value_roundtrip, AttributeView, ValueView};

verus! {

/// True where the tokens `x` stand in `ts` from place `i` on, as far as `ts`
/// goes: `ts` may end before `x` does.
pub open spec fn stands_at(ts: Seq<TokenView>, i: int, x: Seq<TokenView>) -> bool {
    &&& 0 <= i <= ts.len()
    &&& forall|k: int| 0 <= k < x.len() && i + k < ts.len() ==> ts[i + k] == #[trigger] x[k]
}

/// Where a run stands at a place, its front stands there, and its back
/// stands behind the front if `ts` goes that far.
pub proof fn lemma_stands_at_split(
    ts: Seq<TokenView>,
    i: int,
    x: Seq<TokenView>,
    y: Seq<TokenView>,
)
    requires
        stands_at(ts, i, x + y),
    ensures
        stands_at(ts, i, x),
        i + x.len() <= ts.len() ==> stands_at(ts, i + x.len(), y),
{
    assert forall|k: int| 0 <= k < x.len() && i + k < ts.len() implies ts[i + k]
        == #[trigger] x[k] by {
        assert((x + y)[k] == x[k]);
    }
    if i + x.len() <= ts.len() {
        assert forall|k: int| 0 <= k < y.len() && i + x.len() + k < ts.len() implies ts[i
            + x.len() + k] == #[trigger] y[k] by {
            assert((x + y)[x.len() + k] == y[k]);
        }
    }
}

/// True where every member of a collection can be carried: its name fits
/// the two-byte length and its value is well formed.
pub open spec fn members_wf(members: Seq<AttributeView>) -> bool {
    forall|i: int|
        0 <= i < members.len() ==> encode_utf8((#[trigger] members[i]).name).len() <= 0xffff
            && members[i].value.wf()
}

/// True where every value can stand in a list: it is well formed and is not
/// itself a list.
pub open spec fn elements_wf(values: Seq<ValueView>) -> bool {
    forall|i: int| 0 <= i < values.len() ==> !(#[trigger] values[i] is ListOf) && values[i].wf()
}

/// True where every attribute of a group is well formed.
pub open spec fn attributes_wf(attributes: Seq<AttributeView>) -> bool {
    forall|i: int| 0 <= i < attributes.len() ==> attribute_wf(#[trigger] attributes[i])
}

/// The tokens of further values are those of the first followed by those of
/// the others.
pub proof fn lemma_more_tokens_front(values: Seq<ValueView>)
    requires
        values.len() > 0,
    ensures
        more_tokens(values) == value_tokens(Seq::empty(), values[0]) + more_tokens(
            values.drop_first(),
        ),
    decreases values.len(),
{
    if values.len() == 1 {
        assert(values.drop_last() =~= Seq::empty());
        assert(values.drop_first() =~= Seq::empty());
        assert(more_tokens(values) =~= value_tokens(Seq::empty(), values[0]) + more_tokens(
            values.drop_first(),
        ));
    } else {
        lemma_more_tokens_front(values.drop_last());
        assert(values.drop_last().drop_first() =~= values.drop_first().drop_last());
        assert(values.drop_first().last() == values.last());
        assert(more_tokens(values) =~= value_tokens(Seq::empty(), values[0]) + more_tokens(
            values.drop_first(),
        ));
    }
}

/// The tokens of members are those of the first followed by those of the
/// others.
pub proof fn lemma_members_tokens_front(members: Seq<AttributeView>)
    requires
        members.len() > 0,
    ensures
        members_tokens(members) == member_tokens(members[0]) + members_tokens(
            members.drop_first(),
        ),
    decreases members.len(),
{
    if members.len() == 1 {
        assert(members.drop_last() =~= Seq::empty());
        assert(members.drop_first() =~= Seq::empty());
        assert(members_tokens(members) =~= member_tokens(members[0]) + members_tokens(
            members.drop_first(),
        ));
    } else {
        lemma_members_tokens_front(members.drop_last());
        assert(members.drop_last().drop_first() =~= members.drop_first().drop_last());
        assert(members.drop_first().last() == members.last());
        assert(members_tokens(members) =~= member_tokens(members[0]) + members_tokens(
            members.drop_first(),
        ));
    }
}

/// The tokens of attributes are those of the first followed by those of the
/// others.
pub proof fn lemma_attributes_tokens_front(attributes: Seq<AttributeView>)
    requires
        attributes.len() > 0,
    ensures
        attributes_tokens(attributes) == attribute_tokens(attributes[0]) + attributes_tokens(
            attributes.drop_first(),
        ),
    decreases attributes.len(),
{
    if attributes.len() == 1 {
        assert(attributes.drop_last() =~= Seq::empty());
        assert(attributes.drop_first() =~= Seq::empty());
        assert(attributes_tokens(attributes) =~= attribute_tokens(attributes[0])
            + attributes_tokens(attributes.drop_first()));
    } else {
        lemma_attributes_tokens_front(attributes.drop_last());
        assert(attributes.drop_last().drop_first() =~= attributes.drop_first().drop_last());
        assert(attributes.drop_first().last() == attributes.last());
        assert(attributes_tokens(attributes) =~= attribute_tokens(attributes[0])
            + attributes_tokens(attributes.drop_first()));
    }
}

/// The tokens of groups are those of the first followed by those of the
/// others.
pub proof fn lemma_groups_tokens_front(groups: Seq<GroupView>)
    requires
        groups.len() > 0,
    ensures
        groups_tokens(groups) == group_tokens(groups[0]) + groups_tokens(groups.drop_first()),
    decreases groups.len(),
{
    if groups.len() == 1 {
        assert(groups.drop_last() =~= Seq::empty());
        assert(groups.drop_first() =~= Seq::empty());
        assert(groups_tokens(groups) =~= group_tokens(groups[0]) + groups_tokens(
            groups.drop_first(),
        ));
    } else {
        lemma_groups_tokens_front(groups.drop_last());
        assert(groups.drop_last().drop_first() =~= groups.drop_first().drop_last());
        assert(groups.drop_first().last() == groups.last());
        assert(groups_tokens(groups) =~= group_tokens(groups[0]) + groups_tokens(
            groups.drop_first(),
        ));
    }
}

/// True of a token that can open a value under the name `name`: a record
/// with that name whose tag neither names a member nor closes a collection.
pub open spec fn opens_value(t: TokenView, name: Seq<u8>) -> bool {
    t matches TokenView::Value(r) && r.name == name && r.tag != ValueTag::MemberAttrName && r.tag
        != ValueTag::EndCollection
}

/// The tokens of a well-formed value start with a record that bears the
/// value's name and opens a value.
pub proof fn lemma_first_token(name: Seq<u8>, v: ValueView)
    requires
        v.wf(),
    ensures
        value_tokens(name, v).len() >= 1,
        opens_value(value_tokens(name, v)[0], name),
    decreases v,
{
    match v {
        ValueView::ListOf(values) => {
            lemma_first_token(name, values[0]);
        },
        ValueView::Collection(_) => {},
        _ => {
            lemma_value_roundtrip(v);
        },
    }
}

/// The record that closes a collection.
pub open spec fn closing() -> TokenView {
    record(ValueTag::EndCollection, Seq::empty(), Seq::empty())
}

/// The error met by looking at place `at`: the error of the stream where the
/// tokens have run out there, else none.
pub open spec fn behind(ts: Seq<TokenView>, at: int, tail: Option<ParseError>) -> Option<
    ParseError,
> {
    if at >= ts.len() {
        tail
    } else {
        None
    }
}

/// A well-formed value that is not a list is read back from its tokens,
/// wherever they stand. Where the tokens run out inside the value, which
/// they do only in a stream with an error, that error is met.
pub proof fn lemma_read_value(
    ts: Seq<TokenView>,
    i: int,
    name: Seq<u8>,
    v: ValueView,
    tail: Option<ParseError>,
)
    requires
        v.wf(),
        !(v is ListOf),
        stands_at(ts, i, value_tokens(name, v)),
        tail is Some || i + value_tokens(name, v).len() <= ts.len(),
    ensures
        value_tokens(name, v).len() >= 1,
        spec_value(ts, i, tail) == if i + value_tokens(name, v).len() <= ts.len() {
            Ok::<(ValueView, int), ParseError>((v, i + value_tokens(name, v).len()))
        } else {
            Err(tail->0)
        },
    decreases v, 0nat,
{
    let x = value_tokens(name, v);
    match v {
        ValueView::Collection(members) => {
            let open = seq![record(ValueTag::BegCollection, name, Seq::empty())];
            let body = members_tokens(members);
            assert(x == open + (body + seq![closing()])) by {
                assert(x =~= open + (body + seq![closing()]));
            }
            if i < ts.len() {
                lemma_stands_at_split(ts, i, open, body + seq![closing()]);
                assert(ts[i] == open[0]);
                assert(members_wf(members));
                lemma_read_members(ts, i + 1, members, tail);
            }
        },
        _ => {
            lemma_value_roundtrip(v);
            if i < ts.len() {
                assert(ts[i] == x[0]);
            }
        },
    }
}

/// The members of a collection are read back from their tokens and the
/// closing record behind them. Where the tokens run out before the closing
/// record, which they do only in a stream with an error, that error is met.
pub proof fn lemma_read_members(
    ts: Seq<TokenView>,
    i: int,
    members: Seq<AttributeView>,
    tail: Option<ParseError>,
)
    requires
        members_wf(members),
        stands_at(ts, i, members_tokens(members) + seq![closing()]),
        tail is Some || i + members_tokens(members).len() + 1 <= ts.len(),
    ensures
        spec_members(ts, i, tail) == if i + members_tokens(members).len() + 1 <= ts.len() {
            Ok::<(Seq<AttributeView>, int), ParseError>(
                (members, i + members_tokens(members).len() + 1),
            )
        } else {
            Err(tail->0)
        },
    decreases members, 1nat,
{
    let x = members_tokens(members) + seq![closing()];
    if i >= ts.len() {
    } else if members.len() == 0 {
        assert(ts[i] == x[0]);
        assert(members =~= Seq::<AttributeView>::empty());
        assert(members_tokens(members).len() == 0);
    } else {
        let first = members[0];
        let rest = members.drop_first();
        let head = seq![record(ValueTag::MemberAttrName, Seq::empty(), encode_utf8(first.name))];
        let body = value_tokens(Seq::empty(), first.value);
        let more = members_tokens(rest) + seq![closing()];
        lemma_members_tokens_front(members);
        assert(x == head + (body + more)) by {
            assert(x =~= head + (body + more));
        }
        lemma_stands_at_split(ts, i, head, body + more);
        lemma_stands_at_split(ts, i + 1, body, more);
        assert(ts[i] == head[0]);
        vstd::utf8::encode_utf8_valid_utf8(first.name);
        vstd::utf8::encode_utf8_decode_utf8(first.name);
        assert(members_wf(rest)) by {
            assert forall|k: int| 0 <= k < rest.len() implies encode_utf8(
                (#[trigger] rest[k]).name,
            ).len() <= 0xffff && rest[k].value.wf() by {
                assert(rest[k] == members[k + 1]);
            }
        }
        let after = i + 1 + body.len();
        assert(members_tokens(members).len() == 1 + body.len() + members_tokens(rest).len());
        if after < ts.len() {
            assert(!is_continuation(ts, after, true)) by {
                assert(ts[after] == more[0]);
                if rest.len() > 0 {
                    lemma_members_tokens_front(rest);
                    assert(more[0] == member_tokens(rest[0])[0]);
                }
            }
        }
        assert(decreases_to!(members => first));
        assert(decreases_to!(first => first.value));
        lemma_read_values(ts, i + 1, Seq::empty(), first.value, true, tail);
        assert(ts[i] == record(ValueTag::MemberAttrName, Seq::empty(), encode_utf8(first.name)));
        if after < ts.len() {
            lemma_read_members(ts, after, rest, tail);
            assert(seq![AttributeView { name: first.name, value: first.value }] + rest
                =~= members);
            assert(spec_values(ts, i + 1, true, tail) == Ok::<(ValueView, int), ParseError>(
                (first.value, after),
            ));
        } else {
            assert(spec_values(ts, i + 1, true, tail) == Err::<(ValueView, int), ParseError>(
                tail->0,
            ));
        }
    }
}

/// A well-formed value, list or not, is read back from its tokens, provided
/// the token behind them does not continue it. Where the tokens end behind
/// the value or inside it and the stream has an error, that error is met
/// instead.
pub proof fn lemma_read_values(
    ts: Seq<TokenView>,
    i: int,
    name: Seq<u8>,
    v: ValueView,
    nested: bool,
    tail: Option<ParseError>,
)
    requires
        v.wf(),
        stands_at(ts, i, value_tokens(name, v)),
        !is_continuation(ts, i + value_tokens(name, v).len(), nested),
        tail is Some || i + value_tokens(name, v).len() <= ts.len(),
    ensures
        value_tokens(name, v).len() >= 1,
        spec_values(ts, i, nested, tail) == match behind(
            ts,
            i + value_tokens(name, v).len(),
            tail,
        ) {
            Some(e) => Err::<(ValueView, int), ParseError>(e),
            None => Ok((v, i + value_tokens(name, v).len())),
        },
    decreases v, 1nat,
{
    let x = value_tokens(name, v);
    match v {
        ValueView::ListOf(values) => {
            let first = values[0];
            let rest = values.drop_first();
            let head = value_tokens(name, first);
            let more = more_tokens(rest);
            assert(x == head + more);
            lemma_stands_at_split(ts, i, head, more);
            assert(elements_wf(rest)) by {
                assert forall|k: int| 0 <= k < rest.len() implies !(#[trigger] rest[k] is ListOf)
                    && rest[k].wf() by {
                    assert(rest[k] == values[k + 1]);
                }
            }
            lemma_read_value(ts, i, name, first, tail);
            assert(decreases_to!(values => rest));
            if i + head.len() <= ts.len() {
                lemma_read_more(ts, i + head.len(), rest, nested, tail);
                assert(seq![first] + rest =~= values);
            }
        },
        _ => {
            lemma_read_value(ts, i, name, v, tail);
        },
    }
}

/// Further values are read back from their tokens, provided the token behind
/// them does not continue them. Where the tokens end behind them or among
/// them and the stream has an error, that error is met instead.
pub proof fn lemma_read_more(
    ts: Seq<TokenView>,
    i: int,
    values: Seq<ValueView>,
    nested: bool,
    tail: Option<ParseError>,
)
    requires
        elements_wf(values),
        stands_at(ts, i, more_tokens(values)),
        !is_continuation(ts, i + more_tokens(values).len(), nested),
        tail is Some || i + more_tokens(values).len() <= ts.len(),
    ensures
        spec_more(ts, i, nested, tail) == match behind(ts, i + more_tokens(values).len(), tail) {
            Some(e) => Err::<(Seq<ValueView>, int), ParseError>(e),
            None => Ok((values, i + more_tokens(values).len())),
        },
    decreases values, 0nat,
{
    if values.len() == 0 {
        assert(values =~= Seq::<ValueView>::empty());
    } else {
        let first = values[0];
        let rest = values.drop_first();
        let head = value_tokens(Seq::empty(), first);
        let more = more_tokens(rest);
        lemma_more_tokens_front(values);
        lemma_stands_at_split(ts, i, head, more);
        lemma_first_token(Seq::empty(), first);
        assert(elements_wf(rest)) by {
            assert forall|k: int| 0 <= k < rest.len() implies !(#[trigger] rest[k] is ListOf)
                && rest[k].wf() by {
                assert(rest[k] == values[k + 1]);
            }
        }
        if i < ts.len() {
            assert(ts[i] == head[0]);
            assert(is_continuation(ts, i, nested));
            lemma_read_value(ts, i, Seq::empty(), first, tail);
            if i + head.len() <= ts.len() {
                lemma_read_more(ts, i + head.len(), rest, nested, tail);
                assert(seq![first] + rest =~= values);
            }
        }
    }
}

/// The attributes of a group are read back from their tokens, provided a
/// delimiter or the end of the tokens stands behind them. Where the tokens
/// end there or among the attributes and the stream has an error, that error
/// is met instead.
pub proof fn lemma_read_attributes(
    ts: Seq<TokenView>,
    i: int,
    attributes: Seq<AttributeView>,
    tail: Option<ParseError>,
)
    requires
        attributes_wf(attributes),
        stands_at(ts, i, attributes_tokens(attributes)),
        i + attributes_tokens(attributes).len() < ts.len() ==> ts[i + attributes_tokens(
            attributes,
        ).len()] is Group,
        tail is Some || i + attributes_tokens(attributes).len() <= ts.len(),
    ensures
        spec_attributes(ts, i, tail) == match behind(
            ts,
            i + attributes_tokens(attributes).len(),
            tail,
        ) {
            Some(e) => Err::<(Seq<AttributeView>, int), ParseError>(e),
            None => Ok((attributes, i + attributes_tokens(attributes).len())),
        },
    decreases attributes.len(),
{
    if attributes.len() == 0 {
        assert(attributes =~= Seq::<AttributeView>::empty());
    } else {
        let first = attributes[0];
        let rest = attributes.drop_first();
        let name = encode_utf8(first.name);
        let head = attribute_tokens(first);
        let more = attributes_tokens(rest);
        lemma_attributes_tokens_front(attributes);
        lemma_stands_at_split(ts, i, head, more);
        lemma_first_token(name, first.value);
        vstd::utf8::encode_utf8_valid_utf8(first.name);
        vstd::utf8::encode_utf8_decode_utf8(first.name);
        assert(attributes_wf(rest)) by {
            assert forall|k: int| 0 <= k < rest.len() implies attribute_wf(#[trigger] rest[k]) by {
                assert(rest[k] == attributes[k + 1]);
            }
        }
        let after = i + head.len();
        if i < ts.len() {
            assert(ts[i] == head[0]);
            assert(!is_continuation(ts, after, false)) by {
                if after < ts.len() && rest.len() > 0 {
                    lemma_attributes_tokens_front(rest);
                    lemma_first_token(encode_utf8(rest[0].name), rest[0].value);
                    assert(ts[after] == more[0]);
                    assert(more[0] == attribute_tokens(rest[0])[0]);
                }
            }
            lemma_read_values(ts, i, name, first.value, false, tail);
            if after <= ts.len() {
                lemma_read_attributes(ts, after, rest, tail);
                assert(seq![AttributeView { name: first.name, value: first.value }] + rest
                    =~= attributes);
            }
        }
    }
}

/// The groups of a message are read back from their tokens, where those
/// tokens run to the end and the stream has no error. Where it has one, that
/// error is met, behind the groups or among them, wherever the tokens end.
pub proof fn lemma_read_groups(
    ts: Seq<TokenView>,
    i: int,
    groups: Seq<GroupView>,
    tail: Option<ParseError>,
)
    requires
        groups_wf(groups),
        stands_at(ts, i, groups_tokens(groups)),
        ts.len() <= i + groups_tokens(groups).len(),
        tail is Some || ts.len() == i + groups_tokens(groups).len(),
    ensures
        spec_groups(ts, i, tail) == match tail {
            Some(e) => Err::<Seq<GroupView>, ParseError>(e),
            None => Ok(groups),
        },
    decreases groups.len(),
{
    if groups.len() == 0 {
        assert(groups =~= Seq::<GroupView>::empty());
    } else {
        let first = groups[0];
        let rest = groups.drop_first();
        let head = seq![TokenView::Group(first.tag)];
        let body = attributes_tokens(first.attributes);
        let more = groups_tokens(rest);
        lemma_groups_tokens_front(groups);
        assert(groups_tokens(groups) == head + (body + more)) by {
            assert(groups_tokens(groups) =~= head + (body + more));
        }
        assert(group_wf(first));
        assert(attributes_wf(first.attributes));
        assert(groups_wf(rest)) by {
            assert forall|k: int| 0 <= k < rest.len() implies group_wf(#[trigger] rest[k]) by {
                assert(rest[k] == groups[k + 1]);
            }
        }
        if i < ts.len() {
            lemma_stands_at_split(ts, i, head, body + more);
            lemma_stands_at_split(ts, i + 1, body, more);
            assert(ts[i] == head[0]);
            let after = i + 1 + body.len();
            if after < ts.len() {
                assert(rest.len() > 0) by {
                    if rest.len() == 0 {
                        assert(more.len() == 0);
                    }
                }
                lemma_groups_tokens_front(rest);
                assert(ts[after] == more[0]);
                assert(more[0] == group_tokens(rest[0])[0]);
            }
            lemma_read_attributes(ts, i + 1, first.attributes, tail);
            if after <= ts.len() {
                lemma_read_groups(ts, after, rest, tail);
                assert(seq![GroupView { tag: first.tag, attributes: first.attributes }] + rest
                    =~= groups);
            }
        }
    }
}

/// A run of tokens that can each be read back, followed by another such run,
/// is such a run.
pub proof fn lemma_tokens_wf_concat(a: Seq<TokenView>, b: Seq<TokenView>)
    requires
        tokens_wf(a),
        tokens_wf(b),
    ensures
        tokens_wf(a + b),
{
    assert forall|i: int| 0 <= i < (a + b).len() implies (#[trigger] (a + b)[i]).wf() by {
        if i < a.len() {
            assert((a + b)[i] == a[i]);
        } else {
            assert((a + b)[i] == b[i - a.len()]);
        }
    }
}

/// Every token of a well-formed value under a name that fits can be read
/// back from its bytes.
pub proof fn lemma_value_tokens_wf(name: Seq<u8>, v: ValueView)
    requires
        name.len() <= 0xffff,
        v.wf(),
    ensures
        tokens_wf(value_tokens(name, v)),
    decreases v, 1nat,
{
    match v {
        ValueView::ListOf(values) => {
            let rest = values.drop_first();
            assert(elements_wf(rest)) by {
                assert forall|k: int| 0 <= k < rest.len() implies !(#[trigger] rest[k] is ListOf)
                    && rest[k].wf() by {
                    assert(rest[k] == values[k + 1]);
                }
            }
            lemma_value_tokens_wf(name, values[0]);
            assert(decreases_to!(values => rest));
            lemma_more_tokens_wf(rest);
            lemma_tokens_wf_concat(value_tokens(name, values[0]), more_tokens(rest));
        },
        ValueView::Collection(members) => {
            let open = seq![record(ValueTag::BegCollection, name, Seq::empty())];
            assert(members_wf(members));
            lemma_members_tokens_wf(members);
            lemma_tokens_wf_concat(open, members_tokens(members));
            lemma_tokens_wf_concat(open + members_tokens(members), seq![closing()]);
        },
        _ => {},
    }
}

/// Every token of further values can be read back from its bytes.
pub proof fn lemma_more_tokens_wf(values: Seq<ValueView>)
    requires
        elements_wf(values),
    ensures
        tokens_wf(more_tokens(values)),
    decreases values, 0nat,
{
    if values.len() > 0 {
        let front = values.drop_last();
        assert(elements_wf(front)) by {
            assert forall|k: int| 0 <= k < front.len() implies !(#[trigger] front[k] is ListOf)
                && front[k].wf() by {
                assert(front[k] == values[k]);
            }
        }
        assert(decreases_to!(values => front));
        lemma_more_tokens_wf(front);
        lemma_value_tokens_wf(Seq::empty(), values.last());
        lemma_tokens_wf_concat(more_tokens(front), value_tokens(Seq::empty(), values.last()));
    }
}

/// Every token of the members of a collection can be read back from its
/// bytes.
pub proof fn lemma_members_tokens_wf(members: Seq<AttributeView>)
    requires
        members_wf(members),
    ensures
        tokens_wf(members_tokens(members)),
    decreases members, 0nat,
{
    if members.len() > 0 {
        let front = members.drop_last();
        let last = members.last();
        assert(members_wf(front)) by {
            assert forall|k: int| 0 <= k < front.len() implies encode_utf8(
                (#[trigger] front[k]).name,
            ).len() <= 0xffff && front[k].value.wf() by {
                assert(front[k] == members[k]);
            }
        }
        assert(decreases_to!(members => front));
        assert(decreases_to!(members => last));
        assert(decreases_to!(last => last.value));
        lemma_members_tokens_wf(front);
        lemma_value_tokens_wf(Seq::empty(), last.value);
        let head = seq![record(ValueTag::MemberAttrName, Seq::empty(), encode_utf8(last.name))];
        lemma_tokens_wf_concat(head, value_tokens(Seq::empty(), last.value));
        lemma_tokens_wf_concat(members_tokens(front), member_tokens(last));
    }
}

/// Every token of the attributes of a group can be read back from its bytes.
pub proof fn lemma_attributes_tokens_wf(attributes: Seq<AttributeView>)
    requires
        attributes_wf(attributes),
    ensures
        tokens_wf(attributes_tokens(attributes)),
    decreases attributes.len(),
{
    if attributes.len() > 0 {
        let front = attributes.drop_last();
        let last = attributes.last();
        assert(attributes_wf(front)) by {
            assert forall|k: int| 0 <= k < front.len() implies attribute_wf(
                #[trigger] front[k],
            ) by {
                assert(front[k] == attributes[k]);
            }
        }
        lemma_attributes_tokens_wf(front);
        lemma_value_tokens_wf(encode_utf8(last.name), last.value);
        lemma_tokens_wf_concat(attributes_tokens(front), attribute_tokens(last));
    }
}

/// Every token of well-formed groups can be read back from its bytes.
pub proof fn lemma_groups_tokens_wf(groups: Seq<GroupView>)
    requires
        groups_wf(groups),
    ensures
        tokens_wf(groups_tokens(groups)),
    decreases groups.len(),
{
    if groups.len() > 0 {
        let front = groups.drop_last();
        let last = groups.last();
        assert(groups_wf(front)) by {
            assert forall|k: int| 0 <= k < front.len() implies group_wf(#[trigger] front[k]) by {
                assert(front[k] == groups[k]);
            }
        }
        assert(group_wf(last));
        assert(attributes_wf(last.attributes));
        lemma_groups_tokens_wf(front);
        lemma_attributes_tokens_wf(last.attributes);
        lemma_tokens_wf_concat(seq![TokenView::Group(last.tag)], attributes_tokens(last.attributes));
        lemma_tokens_wf_concat(groups_tokens(front), group_tokens(last));
    }
}

/// Round trip of a value through tokens: the tokens of any well-formed
/// value, be it simple, a collection nested to any depth or a list, read back
/// as that value, with members and list values in their order.
pub proof fn lemma_value_tokens_roundtrip(name: Seq<u8>, v: ValueView, nested: bool)
    requires
        v.wf(),
    ensures
        spec_values(value_tokens(name, v), 0, nested, None) == Ok::<(ValueView, int), ParseError>(
            (v, value_tokens(name, v).len() as int),
        ),
{
    let ts = value_tokens(name, v);
    assert(stands_at(ts, 0, ts));
    lemma_read_values(ts, 0, name, v, nested, None);
}

/// Round trip of an attribute section: the bytes of well-formed groups,
/// wherever they stand in a stream, decode to those groups, and decoding
/// stops right behind the end-of-attributes tag.
pub proof fn lemma_attributes_roundtrip(before: Seq<u8>, groups: Seq<GroupView>, after: Seq<u8>)
    requires
        groups_wf(groups),
    ensures
        spec_parse_attributes(
            before + spec_attributes_bytes(groups) + after,
            before.len() as int,
        ) == Ok::<(Seq<GroupView>, int), ParseError>(
            (groups, (before.len() + spec_attributes_bytes(groups).len()) as int),
        ),
{
    let ts = groups_tokens(groups);
    let s = before + spec_attributes_bytes(groups) + after;
    lemma_groups_tokens_wf(groups);
    lemma_lex_roundtrip(before, ts, after);
    assert(s == before + tokens_bytes(ts) + seq![END_OF_ATTRIBUTES] + after) by {
        assert(s =~= before + tokens_bytes(ts) + seq![END_OF_ATTRIBUTES] + after);
    }
    assert(stands_at(ts, 0, ts));
    lemma_read_groups(ts, 0, groups, None);
}

/// Round trip of a message: the bytes of a header and of well-formed groups,
/// whatever payload follows them, decode to that header and those groups, and
/// the payload is found to start right behind them.
pub proof fn lemma_message_roundtrip(header: IppHeader, groups: Seq<GroupView>, payload: Seq<u8>)
    requires
        groups_wf(groups),
    ensures
        spec_parse_message(spec_message_bytes(header, groups) + payload) == Ok::<
            (IppHeader, Seq<GroupView>, int),
            ParseError,
        >((header, groups, spec_message_bytes(header, groups).len() as int)),
{
    let s = spec_message_bytes(header, groups) + payload;
    header.lemma_roundtrip(spec_attributes_bytes(groups) + payload);
    assert(s == header.spec_bytes() + (spec_attributes_bytes(groups) + payload)) by {
        assert(s =~= header.spec_bytes() + (spec_attributes_bytes(groups) + payload));
    }
    lemma_attributes_roundtrip(header.spec_bytes(), groups, payload);
    assert(s == header.spec_bytes() + spec_attributes_bytes(groups) + payload);
}

/// A stream that ends with its header is no message: the end-of-attributes
/// tag is owed, so decoding fails with `UnexpectedEndOfStream`.
pub proof fn lemma_header_only(s: Seq<u8>)
    requires
        s.len() == 8,
    ensures
        spec_parse_message(s) == Err::<(IppHeader, Seq<GroupView>, int), ParseError>(
            ParseError::UnexpectedEndOfStream,
        ),
{
}

/// A message in which a byte of neither tag vocabulary stands where a tag
/// must stand, behind any groups, fails to decode with `UnknownTag` and that
/// byte.
pub proof fn lemma_unknown_tag(header: IppHeader, groups: Seq<GroupView>, b: u8, after: Seq<u8>)
    requires
        groups_wf(groups),
        DelimiterTag::spec_from_u8(b) is None,
        ValueTag::spec_from_u8(b) is None,
    ensures
        spec_parse_message(
            header.spec_bytes() + tokens_bytes(groups_tokens(groups)) + seq![b] + after,
        ) == Err::<(IppHeader, Seq<GroupView>, int), ParseError>(ParseError::UnknownTag(b)),
{
    let ts = groups_tokens(groups);
    let s = header.spec_bytes() + tokens_bytes(ts) + seq![b] + after;
    header.lemma_roundtrip(tokens_bytes(ts) + seq![b] + after);
    assert(s == header.spec_bytes() + (tokens_bytes(ts) + seq![b] + after)) by {
        assert(s =~= header.spec_bytes() + (tokens_bytes(ts) + seq![b] + after));
    }
    lemma_groups_tokens_wf(groups);
    lemma_lex_unknown_tag(header.spec_bytes(), ts, b, after);
    assert(stands_at(ts, 0, ts));
    lemma_read_groups(ts, 0, groups, Some(ParseError::UnknownTag(b)));
}

/// Adding a well-formed attribute under a tag other than end-of-attributes
/// keeps well-formed groups well formed. So every message that starts out
/// well formed and grows by such additions is given back by decoding.
pub proof fn lemma_add_keeps_wf(groups: Seq<GroupView>, tag: DelimiterTag, attribute: AttributeView)
    requires
        groups_wf(groups),
        attribute_wf(attribute),
        tag != DelimiterTag::EndOfAttributes,
    ensures
        groups_wf(spec_add(groups, tag, attribute)),
{
    let after = spec_add(groups, tag, attribute);
    assert forall|i: int| 0 <= i < after.len() implies group_wf(#[trigger] after[i]) by {
        if groups.len() > 0 && groups.last().tag == tag {
            if i < groups.len() - 1 {
                assert(after[i] == groups[i]);
            } else {
                let last = groups.last();
                assert(group_wf(last));
                let grown = last.attributes.push(attribute);
                assert forall|k: int| 0 <= k < grown.len() implies attribute_wf(
                    #[trigger] grown[k],
                ) by {
                    if k < last.attributes.len() {
                        assert(grown[k] == last.attributes[k]);
                    }
                }
            }
        } else {
            if i < groups.len() {
                assert(after[i] == groups[i]);
            }
        }
    }
}

/// Truncation: no proper beginning of the bytes of a well-formed message is
/// itself a message. Cut inside the header it fails with `TruncatedHeader`,
/// cut anywhere behind the header with `UnexpectedEndOfStream`.
pub proof fn lemma_truncated_message(header: IppHeader, groups: Seq<GroupView>, n: int)
    requires
        groups_wf(groups),
        0 <= n < spec_message_bytes(header, groups).len(),
    ensures
        spec_parse_message(spec_message_bytes(header, groups).subrange(0, n)) == Err::<
            (IppHeader, Seq<GroupView>, int),
            ParseError,
        >(
            if n < 8 {
                ParseError::TruncatedHeader
            } else {
                ParseError::UnexpectedEndOfStream
            },
        ),
{
    let ts = groups_tokens(groups);
    let full = spec_message_bytes(header, groups);
    let s = full.subrange(0, n);
    header.lemma_roundtrip(Seq::empty());
    if n >= 8 {
        let rest = s.subrange(8, n);
        assert(s == header.spec_bytes() + rest) by {
            assert(s =~= header.spec_bytes() + rest);
        }
        header.lemma_roundtrip(rest);
        assert(s == (header.spec_bytes() + tokens_bytes(ts)).subrange(0, n)) by {
            assert(s =~= (header.spec_bytes() + tokens_bytes(ts)).subrange(0, n));
        }
        lemma_groups_tokens_wf(groups);
        lemma_lex_truncated(header.spec_bytes(), ts, n);
        let got = spec_lex(s, 8);
        assert(stands_at(got.0, 0, ts));
        lemma_read_groups(got.0, 0, groups, Some(ParseError::UnexpectedEndOfStream));
    }
}

} // verus!
