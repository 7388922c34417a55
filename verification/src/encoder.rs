//! Writing the model out as bytes.
use vstd::prelude::*;
use crate::attribute::{groups_view, IppAttributeGroup, IppAttributes};
use crate::grammar::{
    attribute_tokens, attributes_tokens, group_tokens, groups_tokens, list_tokens, member_tokens,
    members_tokens, more_tokens, spec_attributes_bytes, value_tokens,
};
use crate::tag::ValueTag;
use crate::text::string_bytes;
use crate::token::{
    lemma_tokens_bytes_concat, lemma_tokens_bytes_one, put_record, record, tokens_bytes, TokenView,
    END_OF_ATTRIBUTES,
};
use crate::value::{
    attributes_view, lemma_view_of_composite, values_view, IppAttribute, IppValue,
};

verus! {

/// Appends the records of the further values `values[from..]`, each under no
/// name.
fn write_more(out: &mut Vec<u8>, values: &Vec<IppValue>, from: usize, Ghost(parent): Ghost<&IppValue>)
    requires
        from <= values@.len(),
        *parent == IppValue::ListOf(*values),
    ensures
        final(out)@ == old(out)@ + tokens_bytes(
            more_tokens(values_view(values@).subrange(from as int, values@.len() as int)),
        ),
    decreases parent, 0nat,
{
    let no_name: Vec<u8> = Vec::new();
    let ghost views = values_view(values@);
    let mut i: usize = from;
    proof {
        assert(views.subrange(from as int, from as int) =~= Seq::empty());
        assert(out@ =~= old(out)@ + tokens_bytes(more_tokens(Seq::empty())));
    }
    while i < values.len()
        invariant
            from <= i <= values@.len(),
            *parent == IppValue::ListOf(*values),
            views == values_view(values@),
            no_name@ == Seq::<u8>::empty(),
            out@ == old(out)@ + tokens_bytes(more_tokens(views.subrange(from as int, i as int))),
        decreases values@.len() - i,
    {
        let ghost before = out@;
        proof {
            assert(parent->ListOf_0 == *values);
            assert(decreases_to!(*parent => parent->ListOf_0));
            assert(decreases_to!(*values => values[i as int]));
        }
        write_value(out, no_name.as_slice(), &values[i]);
        proof {
            let done = views.subrange(from as int, i as int);
            let next = views.subrange(from as int, i + 1);
            assert(next.drop_last() =~= done);
            assert(next.last() == values@[i as int]@);
            lemma_tokens_bytes_concat(more_tokens(done), value_tokens(Seq::empty(), values@[i as int]@));
            assert(out@ =~= old(out)@ + tokens_bytes(more_tokens(next)));
        }
        i += 1;
    }
}

/// Appends the records of the members of a collection.
fn write_members(out: &mut Vec<u8>, members: &Vec<IppAttribute>, Ghost(parent): Ghost<&IppValue>)
    requires
        *parent == IppValue::Collection(*members),
    ensures
        final(out)@ == old(out)@ + tokens_bytes(members_tokens(attributes_view(members@))),
    decreases parent, 0nat,
{
    let no_name: Vec<u8> = Vec::new();
    let ghost views = attributes_view(members@);
    let mut i: usize = 0;
    proof {
        assert(views.subrange(0, 0) =~= Seq::empty());
        assert(out@ =~= old(out)@ + tokens_bytes(members_tokens(Seq::empty())));
    }
    while i < members.len()
        invariant
            0 <= i <= members@.len(),
            *parent == IppValue::Collection(*members),
            views == attributes_view(members@),
            no_name@ == Seq::<u8>::empty(),
            out@ == old(out)@ + tokens_bytes(members_tokens(views.subrange(0, i as int))),
        decreases members@.len() - i,
    {
        let ghost before = out@;
        let member = &members[i];
        proof {
            assert(parent->Collection_0 == *members);
            assert(decreases_to!(*parent => parent->Collection_0));
            assert(decreases_to!(*members => members[i as int]));
            assert(decreases_to!(*member => member.value));
        }
        put_record(
            out,
            ValueTag::MemberAttrName,
            no_name.as_slice(),
            string_bytes(&member.name),
        );
        let ghost middle = out@;
        write_value(out, no_name.as_slice(), &member.value);
        proof {
            let done = views.subrange(0, i as int);
            let next = views.subrange(0, i + 1);
            let head = record(ValueTag::MemberAttrName, Seq::empty(), vstd::utf8::encode_utf8(member@.name));
            let body = value_tokens(Seq::empty(), member@.value);
            assert(next.drop_last() =~= done);
            assert(next.last() == member@);
            lemma_tokens_bytes_one(head);
            lemma_tokens_bytes_concat(seq![head], body);
            lemma_tokens_bytes_concat(members_tokens(done), member_tokens(member@));
            assert(out@ =~= before + head.encoded() + tokens_bytes(body));
            assert(out@ =~= old(out)@ + tokens_bytes(members_tokens(next)));
        }
        i += 1;
    }
    proof {
        assert(views.subrange(0, i as int) =~= views);
    }
}

/// Appends the records of a value that stands under `name`: one record for a
/// simple value, the records of each value in turn for a list, and for a
/// collection its opening record, its members and its closing record.
pub fn write_value(out: &mut Vec<u8>, name: &[u8], value: &IppValue)
    ensures
        final(out)@ == old(out)@ + tokens_bytes(value_tokens(name@, value@)),
    decreases value, 1nat,
{
    let no_name: Vec<u8> = Vec::new();
    proof {
        lemma_view_of_composite(*value);
    }
    match value {
        IppValue::ListOf(values) => {
            if values.len() > 0 {
                proof {
                    assert(value->ListOf_0 == *values);
                    assert(decreases_to!(*value => value->ListOf_0));
                    assert(decreases_to!(*values => values[0]));
                }
                write_value(out, name, &values[0]);
                write_more(out, values, 1, Ghost(value));
                proof {
                    let views = values_view(values@);
                    assert(views.subrange(1, values@.len() as int) =~= views.drop_first());
                    lemma_tokens_bytes_concat(
                        value_tokens(name@, views[0]),
                        more_tokens(views.drop_first()),
                    );
                    assert(out@ =~= old(out)@ + tokens_bytes(list_tokens(name@, views)));
                }
            } else {
                assert(out@ =~= old(out)@ + tokens_bytes(Seq::<TokenView>::empty()));
            }
        },
        IppValue::Collection(members) => {
            put_record(out, ValueTag::BegCollection, name, no_name.as_slice());
            write_members(out, members, Ghost(value));
            put_record(out, ValueTag::EndCollection, no_name.as_slice(), no_name.as_slice());
            proof {
                let open = record(ValueTag::BegCollection, name@, Seq::empty());
                let body = members_tokens(attributes_view(members@));
                let close = record(ValueTag::EndCollection, Seq::empty(), Seq::empty());
                lemma_tokens_bytes_one(open);
                lemma_tokens_bytes_one(close);
                lemma_tokens_bytes_concat(seq![open], body);
                lemma_tokens_bytes_concat(seq![open] + body, seq![close]);
                assert(out@ =~= old(out)@ + tokens_bytes(seq![open] + body + seq![close]));
            }
        },
        _ => {
            match value.to_tag() {
                Some(tag) => {
                    let payload = value.to_bytes();
                    put_record(out, tag, name, payload.as_slice());
                    proof {
                        lemma_tokens_bytes_one(record(tag, name@, payload@));
                    }
                },
                None => {},
            }
        },
    }
}

impl IppAttribute {
    /// Appends the records of this attribute, as it stands in a group.
    pub fn write(&self, out: &mut Vec<u8>)
        ensures
            final(out)@ == old(out)@ + tokens_bytes(attribute_tokens(self@)),
    {
        write_value(out, string_bytes(&self.name), &self.value);
    }

    /// The records of this attribute, as it stands in a group.
    pub fn to_bytes(&self) -> (out: Vec<u8>)
        ensures
            out@ == tokens_bytes(attribute_tokens(self@)),
    {
        let mut out: Vec<u8> = Vec::new();
        self.write(&mut out);
        assert(out@ =~= tokens_bytes(attribute_tokens(self@)));
        out
    }
}

impl IppAttributeGroup {
    /// Appends the delimiter tag of this group and the records of its
    /// attributes.
    pub fn write(&self, out: &mut Vec<u8>)
        ensures
            final(out)@ == old(out)@ + tokens_bytes(group_tokens(self@)),
    {
        out.push(self.tag.to_u8());
        let ghost views = attributes_view(self.attributes@);
        let mut i: usize = 0;
        proof {
            assert(views.subrange(0, 0) =~= Seq::empty());
            assert(out@ =~= old(out)@ + seq![self.tag.spec_to_u8()] + tokens_bytes(
                attributes_tokens(Seq::empty()),
            ));
        }
        while i < self.attributes.len()
            invariant
                0 <= i <= self.attributes@.len(),
                views == attributes_view(self.attributes@),
                out@ == old(out)@ + seq![self.tag.spec_to_u8()] + tokens_bytes(
                    attributes_tokens(views.subrange(0, i as int)),
                ),
            decreases self.attributes@.len() - i,
        {
            self.attributes[i].write(out);
            proof {
                let done = views.subrange(0, i as int);
                let next = views.subrange(0, i + 1);
                assert(next.drop_last() =~= done);
                assert(next.last() == self.attributes@[i as int]@);
                lemma_tokens_bytes_concat(
                    attributes_tokens(done),
                    attribute_tokens(self.attributes@[i as int]@),
                );
                assert(out@ =~= old(out)@ + seq![self.tag.spec_to_u8()] + tokens_bytes(
                    attributes_tokens(next),
                ));
            }
            i += 1;
        }
        proof {
            assert(views.subrange(0, i as int) =~= views);
            let head = TokenView::Group(self.tag);
            lemma_tokens_bytes_one(head);
            lemma_tokens_bytes_concat(seq![head], attributes_tokens(views));
            assert(out@ =~= old(out)@ + tokens_bytes(group_tokens(self@)));
        }
    }
}

impl IppAttributes {
    /// Appends the attribute section: every group in order, then the
    /// end-of-attributes tag.
    pub fn write(&self, out: &mut Vec<u8>)
        ensures
            final(out)@ == old(out)@ + spec_attributes_bytes(self@),
    {
        let ghost views = groups_view(self.groups@);
        let mut i: usize = 0;
        proof {
            assert(views.subrange(0, 0) =~= Seq::empty());
            assert(out@ =~= old(out)@ + tokens_bytes(groups_tokens(Seq::empty())));
        }
        while i < self.groups.len()
            invariant
                0 <= i <= self.groups@.len(),
                views == groups_view(self.groups@),
                out@ == old(out)@ + tokens_bytes(groups_tokens(views.subrange(0, i as int))),
            decreases self.groups@.len() - i,
        {
            self.groups[i].write(out);
            proof {
                let done = views.subrange(0, i as int);
                let next = views.subrange(0, i + 1);
                assert(next.drop_last() =~= done);
                assert(next.last() == self.groups@[i as int]@);
                lemma_tokens_bytes_concat(groups_tokens(done), group_tokens(self.groups@[i as int]@));
                assert(out@ =~= old(out)@ + tokens_bytes(groups_tokens(next)));
            }
            i += 1;
        }
        out.push(END_OF_ATTRIBUTES);
        proof {
            assert(views.subrange(0, i as int) =~= views);
            assert(out@ =~= old(out)@ + spec_attributes_bytes(self@));
        }
    }

    /// The attribute section: every group in order, then the
    /// end-of-attributes tag.
    pub fn to_bytes(&self) -> (out: Vec<u8>)
        ensures
            out@ == spec_attributes_bytes(self@),
    {
        let mut out: Vec<u8> = Vec::new();
        self.write(&mut out);
        assert(out@ =~= spec_attributes_bytes(self@));
        out
    }
}

} // verus!
