//! Tests, at run time, of whether a model can be written out and read back.
//! Encoding never fails, but only a well-formed model is given back by
//! decoding; these functions tell a caller beforehand.
use vstd::prelude::*;
use vstd::utf8::encode_utf8;
use crate::attribute::{IppAttributeGroup, IppAttributes};
use crate::grammar::{attribute_wf, group_wf, groups_wf};
use crate::tag::DelimiterTag;
use crate::text::string_bytes;
use crate::value::{
    attributes_view, lemma_view_of_composite, values_view, IppAttribute, IppValue,
};

verus! {

/// True where every value of a list is well formed and none is itself a
/// list.
fn elements_are_wf(values: &Vec<IppValue>, Ghost(parent): Ghost<&IppValue>) -> (r: bool)
    requires
        *parent == IppValue::ListOf(*values),
    ensures
        r == forall|i: int|
            0 <= i < values@.len() ==> !(#[trigger] values_view(values@)[i] is ListOf)
                && values_view(values@)[i].wf(),
    decreases parent, 0nat,
{
    let mut i: usize = 0;
    while i < values.len()
        invariant
            0 <= i <= values@.len(),
            *parent == IppValue::ListOf(*values),
            forall|k: int|
                0 <= k < i ==> !(#[trigger] values_view(values@)[k] is ListOf) && values_view(
                    values@,
                )[k].wf(),
        decreases values@.len() - i,
    {
        proof {
            assert(parent->ListOf_0 == *values);
            assert(decreases_to!(*parent => parent->ListOf_0));
            assert(decreases_to!(*values => values[i as int]));
        }
        let is_list = match &values[i] {
            IppValue::ListOf(_) => true,
            _ => false,
        };
        if is_list || !values[i].is_wf() {
            assert(values_view(values@)[i as int] == values@[i as int]@);
            return false;
        }
        assert(values_view(values@)[i as int] == values@[i as int]@);
        i += 1;
    }
    true
}

/// True where every member has a name that fits and a well-formed value.
fn members_are_wf(members: &Vec<IppAttribute>, Ghost(parent): Ghost<&IppValue>) -> (r: bool)
    requires
        *parent == IppValue::Collection(*members),
    ensures
        r == forall|i: int|
            0 <= i < members@.len() ==> encode_utf8(
                (#[trigger] attributes_view(members@)[i]).name,
            ).len() <= 0xffff && attributes_view(members@)[i].value.wf(),
    decreases parent, 0nat,
{
    let mut i: usize = 0;
    while i < members.len()
        invariant
            0 <= i <= members@.len(),
            *parent == IppValue::Collection(*members),
            forall|k: int|
                0 <= k < i ==> encode_utf8((#[trigger] attributes_view(members@)[k]).name).len()
                    <= 0xffff && attributes_view(members@)[k].value.wf(),
        decreases members@.len() - i,
    {
        let member = &members[i];
        proof {
            assert(parent->Collection_0 == *members);
            assert(decreases_to!(*parent => parent->Collection_0));
            assert(decreases_to!(*members => members[i as int]));
            assert(decreases_to!(*member => member.value));
        }
        if string_bytes(&member.name).len() > 0xffff || !member.value.is_wf() {
            assert(attributes_view(members@)[i as int] == members@[i as int]@);
            return false;
        }
        assert(attributes_view(members@)[i as int] == members@[i as int]@);
        i += 1;
    }
    true
}

impl IppValue {
    /// True where this value can be written out and read back.
    pub fn is_wf(&self) -> (r: bool)
        ensures
            r == self@.wf(),
        decreases self, 1nat,
    {
        proof {
            lemma_view_of_composite(*self);
        }
        match self {
            IppValue::ListOf(values) => values.len() >= 2 && elements_are_wf(values, Ghost(self)),
            IppValue::Collection(members) => members_are_wf(members, Ghost(self)),
            _ => self.to_bytes().len() <= 0xffff,
        }
    }
}

impl IppAttribute {
    /// True where this attribute can stand in a group, be written out and be
    /// read back.
    pub fn is_wf(&self) -> (r: bool)
        ensures
            r == attribute_wf(self@),
    {
        let n: usize = string_bytes(&self.name).len();
        0 < n && n <= 0xffff && self.value.is_wf()
    }
}

impl IppAttributeGroup {
    /// True where this group can be written out and read back.
    pub fn is_wf(&self) -> (r: bool)
        ensures
            r == group_wf(self@),
    {
        if self.tag == DelimiterTag::EndOfAttributes {
            return false;
        }
        let mut i: usize = 0;
        while i < self.attributes.len()
            invariant
                0 <= i <= self.attributes@.len(),
                forall|k: int| 0 <= k < i ==> attribute_wf(#[trigger] self@.attributes[k]),
            decreases self.attributes@.len() - i,
        {
            if !self.attributes[i].is_wf() {
                assert(self@.attributes[i as int] == self.attributes@[i as int]@);
                return false;
            }
            assert(self@.attributes[i as int] == self.attributes@[i as int]@);
            i += 1;
        }
        true
    }
}

impl IppAttributes {
    /// True where these groups can be written out and read back.
    pub fn is_wf(&self) -> (r: bool)
        ensures
            r == groups_wf(self@),
    {
        let mut i: usize = 0;
        while i < self.groups.len()
            invariant
                0 <= i <= self.groups@.len(),
                forall|k: int| 0 <= k < i ==> group_wf(#[trigger] self@[k]),
            decreases self.groups@.len() - i,
        {
            if !self.groups[i].is_wf() {
                assert(self@[i as int] == self.groups@[i as int]@);
                return false;
            }
            assert(self@[i as int] == self.groups@[i as int]@);
            i += 1;
        }
        true
    }
}

} // verus!
