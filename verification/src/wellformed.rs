//! What decoding returns is well formed: every decoded message satisfies the
//! conditions under which a message can be written out and read back, so a
//! decoded message, written out again, decodes to itself.
use vstd::prelude::*;
use vstd::utf8::{decode_utf8, encode_utf8, valid_utf8};
use crate::attribute::GroupView;
use crate::error::ParseError;
use crate::grammar::{
    attribute_wf, group_wf, groups_wf, is_continuation, spec_attributes, spec_groups,
    spec_members, spec_message_bytes, spec_more, spec_parse_attributes, spec_parse_message,
    spec_tail, spec_value, spec_values,
};
use crate::header::IppHeader;
use crate::roundtrip::{attributes_wf, elements_wf, lemma_message_roundtrip, members_wf};
use crate::tag::ValueTag;
use crate::token::{lemma_lexed_tokens_wf, spec_lex, tokens_wf, TokenView};
use crate::value::{lemma_decoded_value_wf, AttributeView};

verus! {

/// A single value read from well-formed tokens is well formed and no list.
pub proof fn lemma_value_wf(ts: Seq<TokenView>, i: int, tail: Option<ParseError>)
    requires
        tokens_wf(ts),
    ensures
        spec_value(ts, i, tail) matches Ok(found) ==> found.0.wf() && !(found.0 is ListOf),
    decreases ts.len() - i, 0nat,
{
    if 0 <= i < ts.len() {
        if let TokenView::Value(r) = ts[i] {
            assert(ts[i].wf());
            if r.tag == ValueTag::BegCollection {
                lemma_members_wf(ts, i + 1, tail);
            } else {
                lemma_decoded_value_wf(r.tag, r.value);
            }
        }
    }
}

/// The members read from well-formed tokens are well formed.
pub proof fn lemma_members_wf(ts: Seq<TokenView>, i: int, tail: Option<ParseError>)
    requires
        tokens_wf(ts),
    ensures
        spec_members(ts, i, tail) matches Ok(found) ==> members_wf(found.0),
    decreases ts.len() - i, 2nat,
{
    if 0 <= i < ts.len() {
        if let TokenView::Value(r) = ts[i] {
            assert(ts[i].wf());
            if r.tag == ValueTag::MemberAttrName && valid_utf8(r.value) {
                if let Ok((v, next)) = spec_values(ts, i + 1, true, tail) {
                    if i < next <= ts.len() {
                        if let Ok((rest, end)) = spec_members(ts, next, tail) {
                            lemma_values_wf(ts, i + 1, true, tail);
                            lemma_members_wf(ts, next, tail);
                            vstd::utf8::decode_utf8_encode_utf8(r.value);
                            let first = AttributeView { name: decode_utf8(r.value), value: v };
                            let all = seq![first] + rest;
                            assert forall|k: int| 0 <= k < all.len() implies encode_utf8(
                                (#[trigger] all[k]).name,
                            ).len() <= 0xffff && all[k].value.wf() by {
                                if k > 0 {
                                    assert(all[k] == rest[k - 1]);
                                }
                            }
                        }
                    }
                }
            }
        }
    }
}

/// The value of an attribute or member read from well-formed tokens is well
/// formed: a list has at least two values, none of them a list.
pub proof fn lemma_values_wf(ts: Seq<TokenView>, i: int, nested: bool, tail: Option<ParseError>)
    requires
        tokens_wf(ts),
    ensures
        spec_values(ts, i, nested, tail) matches Ok(found) ==> found.0.wf(),
    decreases ts.len() - i, 1nat,
{
    if let Ok((first, next)) = spec_value(ts, i, tail) {
        if i < next <= ts.len() {
            if let Ok((more, end)) = spec_more(ts, next, nested, tail) {
                lemma_value_wf(ts, i, tail);
                lemma_more_wf(ts, next, nested, tail);
                if more.len() > 0 {
                    let all = seq![first] + more;
                    assert forall|k: int| 0 <= k < all.len() implies !(#[trigger] all[k] is ListOf)
                        && all[k].wf() by {
                        if k > 0 {
                            assert(all[k] == more[k - 1]);
                        }
                    }
                }
            }
        }
    }
}

/// The further values read from well-formed tokens are well formed, and none
/// is a list.
pub proof fn lemma_more_wf(ts: Seq<TokenView>, i: int, nested: bool, tail: Option<ParseError>)
    requires
        tokens_wf(ts),
    ensures
        spec_more(ts, i, nested, tail) matches Ok(found) ==> elements_wf(found.0),
    decreases ts.len() - i, 1nat,
{
    if is_continuation(ts, i, nested) {
        if let Ok((v, next)) = spec_value(ts, i, tail) {
            if i < next <= ts.len() {
                if let Ok((rest, end)) = spec_more(ts, next, nested, tail) {
                    lemma_value_wf(ts, i, tail);
                    lemma_more_wf(ts, next, nested, tail);
                    let all = seq![v] + rest;
                    assert forall|k: int| 0 <= k < all.len() implies !(#[trigger] all[k] is ListOf)
                        && all[k].wf() by {
                        if k > 0 {
                            assert(all[k] == rest[k - 1]);
                        }
                    }
                }
            }
        }
    }
}

/// The attributes read from well-formed tokens are well formed.
pub proof fn lemma_attributes_wf(ts: Seq<TokenView>, i: int, tail: Option<ParseError>)
    requires
        tokens_wf(ts),
    ensures
        spec_attributes(ts, i, tail) matches Ok(found) ==> attributes_wf(found.0),
    decreases ts.len() - i,
{
    if 0 <= i < ts.len() {
        if let TokenView::Value(r) = ts[i] {
            assert(ts[i].wf());
            if r.name.len() != 0 && valid_utf8(r.name) {
                if let Ok((v, next)) = spec_values(ts, i, false, tail) {
                    if i < next <= ts.len() {
                        if let Ok((rest, end)) = spec_attributes(ts, next, tail) {
                            lemma_values_wf(ts, i, false, tail);
                            lemma_attributes_wf(ts, next, tail);
                            vstd::utf8::decode_utf8_encode_utf8(r.name);
                            let first = AttributeView { name: decode_utf8(r.name), value: v };
                            let all = seq![first] + rest;
                            assert forall|k: int| 0 <= k < all.len() implies attribute_wf(
                                #[trigger] all[k],
                            ) by {
                                if k > 0 {
                                    assert(all[k] == rest[k - 1]);
                                }
                            }
                        }
                    }
                }
            }
        }
    }
}

/// The groups read from well-formed tokens are well formed.
pub proof fn lemma_groups_wf(ts: Seq<TokenView>, i: int, tail: Option<ParseError>)
    requires
        tokens_wf(ts),
    ensures
        spec_groups(ts, i, tail) matches Ok(groups) ==> groups_wf(groups),
    decreases ts.len() - i,
{
    if 0 <= i < ts.len() {
        if let TokenView::Group(d) = ts[i] {
            assert(ts[i].wf());
            if let Ok((attributes, next)) = spec_attributes(ts, i + 1, tail) {
                if i < next <= ts.len() {
                    if let Ok(rest) = spec_groups(ts, next, tail) {
                        lemma_attributes_wf(ts, i + 1, tail);
                        lemma_groups_wf(ts, next, tail);
                        let first = GroupView { tag: d, attributes };
                        let all = seq![first] + rest;
                        assert(group_wf(first));
                        assert forall|k: int| 0 <= k < all.len() implies group_wf(
                            #[trigger] all[k],
                        ) by {
                            if k > 0 {
                                assert(all[k] == rest[k - 1]);
                            }
                        }
                    }
                }
            }
        }
    }
}

/// The groups of a decoded attribute section are well formed.
pub proof fn lemma_parsed_attributes_wf(s: Seq<u8>, pos: int)
    ensures
        spec_parse_attributes(s, pos) matches Ok(found) ==> groups_wf(found.0),
{
    let (ts, end) = spec_lex(s, pos);
    lemma_lexed_tokens_wf(s, pos);
    lemma_groups_wf(ts, 0, spec_tail(end));
}

/// The groups of a decoded message are well formed. So decoding never
/// returns a list of fewer than two values or of lists, an attribute
/// without a name, or a name or value too long to be written.
pub proof fn lemma_parsed_message_wf(s: Seq<u8>)
    ensures
        spec_parse_message(s) matches Ok(found) ==> groups_wf(found.1),
{
    lemma_parsed_attributes_wf(s, 8);
}

/// A decoded message, written out again, decodes to itself, whatever payload
/// follows it.
pub proof fn lemma_decoded_message_is_stable(s: Seq<u8>, payload: Seq<u8>)
    requires
        spec_parse_message(s) is Ok,
    ensures
        ({
            let found = spec_parse_message(s)->Ok_0;
            let written = spec_message_bytes(found.0, found.1);
            spec_parse_message(written + payload) == Ok::<
                (IppHeader, Seq<GroupView>, int),
                ParseError,
            >((found.0, found.1, written.len() as int))
        }),
{
    let found = spec_parse_message(s)->Ok_0;
    lemma_parsed_message_wf(s);
    lemma_message_roundtrip(found.0, found.1, payload);
}

} // verus!
