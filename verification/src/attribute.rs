//! Attributes in groups: the ordered model of everything a message carries
//! between its header and its payload.
use vstd::prelude::*;
use crate::error::IppError;
use crate::tag::DelimiterTag;
use crate::text::str_eq;
use crate::value::{attributes_view, AttributeView, IppAttribute, IppValue, ValueView};

verus! {

/// Name of the attribute that states the character set of a message.
pub const ATTRIBUTES_CHARSET: &'static str = "attributes-charset";

/// Name of the attribute that states the natural language of a message.
pub const ATTRIBUTES_NATURAL_LANGUAGE: &'static str = "attributes-natural-language";

/// The character set that every message of this library states.
pub const DEFAULT_CHARSET: &'static str = "utf-8";

/// The natural language that every message of this library states.
pub const DEFAULT_NATURAL_LANGUAGE: &'static str = "en";

/// Name of the attribute that addresses a printer.
pub const PRINTER_URI: &'static str = "printer-uri";

impl IppAttribute {
    /// An attribute with the given name and value.
    pub fn new(name: &str, value: IppValue) -> (a: IppAttribute)
        ensures
            a@ == (AttributeView { name: name@, value: value@ }),
            a.value == value,
    {
        IppAttribute { name: name.to_owned(), value }
    }

    /// The attribute's name.
    pub fn name(&self) -> (n: &str)
        ensures
            n@ == self@.name,
    {
        self.name.as_str()
    }

    /// The attribute's value.
    pub fn value(&self) -> (v: &IppValue)
        ensures
            *v == self.value,
    {
        &self.value
    }
}

/// The attributes that stand under one delimiter tag, in the order in which
/// they came.
#[derive(Debug, PartialEq, Eq)]
pub struct IppAttributeGroup {
    pub tag: DelimiterTag,
    pub attributes: Vec<IppAttribute>,
}

/// The mathematical content of an [`IppAttributeGroup`].
pub struct GroupView {
    pub tag: DelimiterTag,
    pub attributes: Seq<AttributeView>,
}

impl View for IppAttributeGroup {
    type V = GroupView;

    open spec fn view(&self) -> GroupView {
        GroupView { tag: self.tag, attributes: attributes_view(self.attributes@) }
    }
}

/// True where `i` is the place of the first attribute named `name`.
pub open spec fn is_first_named(attributes: Seq<AttributeView>, name: Seq<char>, i: int) -> bool {
    &&& 0 <= i < attributes.len()
    &&& attributes[i].name == name
    &&& forall|j: int| 0 <= j < i ==> (#[trigger] attributes[j]).name != name
}

/// True where no attribute is named `name`.
pub open spec fn none_named(attributes: Seq<AttributeView>, name: Seq<char>) -> bool {
    forall|j: int| 0 <= j < attributes.len() ==> (#[trigger] attributes[j]).name != name
}

impl IppAttributeGroup {
    /// An empty group.
    pub fn new(tag: DelimiterTag) -> (g: IppAttributeGroup)
        ensures
            g@ == (GroupView { tag, attributes: Seq::empty() }),
    {
        let g = IppAttributeGroup { tag, attributes: Vec::new() };
        assert(g@.attributes =~= Seq::empty());
        g
    }

    /// The group's delimiter tag.
    pub fn tag(&self) -> (t: DelimiterTag)
        ensures
            t == self@.tag,
    {
        self.tag
    }

    /// The group's attributes, in order.
    pub fn attributes(&self) -> (a: &Vec<IppAttribute>)
        ensures
            *a == self.attributes,
    {
        &self.attributes
    }

    /// The place of the first attribute named `name`, or `None` where the
    /// group holds no attribute of that name.
    pub fn position(&self, name: &str) -> (r: Option<usize>)
        ensures
            match r {
                Some(i) => is_first_named(self@.attributes, name@, i as int),
                None => none_named(self@.attributes, name@),
            },
    {
        let mut i: usize = 0;
        while i < self.attributes.len()
            invariant
                0 <= i <= self.attributes@.len(),
                forall|j: int| 0 <= j < i ==> (#[trigger] self@.attributes[j]).name != name@,
            decreases self.attributes@.len() - i,
        {
            if str_eq(self.attributes[i].name.as_str(), name) {
                return Some(i);
            }
            i += 1;
        }
        None
    }

    /// The first attribute named `name`. Where the group holds none of that
    /// name the call fails with `AttributeNotFound`, which carries the name.
    pub fn get(&self, name: &str) -> (r: Result<&IppAttribute, IppError>)
        ensures
            match r {
                Ok(a) => exists|i: int|
                    is_first_named(self@.attributes, name@, i) && *a == #[trigger] self.attributes@[i],
                Err(e) => none_named(self@.attributes, name@) && (e matches IppError::AttributeNotFound(
                    n,
                ) && n@ == name@),
            },
    {
        match self.position(name) {
            Some(i) => Ok(&self.attributes[i]),
            None => Err(IppError::AttributeNotFound(name.to_owned())),
        }
    }
}

/// What a typed lookup of `name` returns from `attributes`, where `pick`
/// takes the typed content out of a value of the wanted kind: the content of
/// the first attribute of that name; `AttributeNotFound` where there is no
/// such attribute; `InvalidAttributeType` where its value is of another kind.
pub open spec fn typed_lookup_ok<T>(
    attributes: Seq<AttributeView>,
    name: Seq<char>,
    pick: spec_fn(ValueView) -> Option<T>,
    r: Result<T, IppError>,
) -> bool {
    match r {
        Ok(x) => exists|i: int|
            is_first_named(attributes, name, i) && pick((#[trigger] attributes[i]).value) == Some(
                x,
            ),
        Err(IppError::AttributeNotFound(n)) => none_named(attributes, name) && n@ == name,
        Err(IppError::InvalidAttributeType) => exists|i: int|
            is_first_named(attributes, name, i) && pick((#[trigger] attributes[i]).value) is None,
    }
}

/// The result of a lookup of a text, with the characters in place of the
/// string.
pub open spec fn text_result(r: Result<&String, IppError>) -> Result<Seq<char>, IppError> {
    match r {
        Ok(s) => Ok(s@),
        Err(e) => Err(e),
    }
}

impl IppAttributeGroup {
    /// The number of the first attribute named `name`, which must be an
    /// `Integer`.
    pub fn get_integer(&self, name: &str) -> (r: Result<i32, IppError>)
        ensures
            typed_lookup_ok(
                self@.attributes,
                name@,
                |v: ValueView| v.integer(),
                r,
            ),
    {
        match self.get(name) {
            Err(e) => Err(e),
            Ok(a) => match a.value.as_integer() {
                Some(i) => Ok(*i),
                None => Err(IppError::InvalidAttributeType),
            },
        }
    }

    /// The number of the first attribute named `name`, which must be an
    /// `Enum`.
    pub fn get_enum(&self, name: &str) -> (r: Result<i32, IppError>)
        ensures
            typed_lookup_ok(
                self@.attributes,
                name@,
                |v: ValueView| v.enumeration(),
                r,
            ),
    {
        match self.get(name) {
            Err(e) => Err(e),
            Ok(a) => match a.value.as_enum() {
                Some(i) => Ok(*i),
                None => Err(IppError::InvalidAttributeType),
            },
        }
    }

    /// The text of the first attribute named `name`, which must be of one of
    /// the eight plain string kinds.
    pub fn get_string(&self, name: &str) -> (r: Result<&String, IppError>)
        ensures
            typed_lookup_ok(self@.attributes, name@, |v: ValueView| v.text(), text_result(r)),
    {
        match self.get(name) {
            Err(e) => Err(e),
            Ok(a) => match a.value.as_string() {
                Some(s) => Ok(s),
                None => Err(IppError::InvalidAttributeType),
            },
        }
    }

    /// The truth value of the first attribute named `name`, which must be a
    /// `Boolean`.
    pub fn get_boolean(&self, name: &str) -> (r: Result<bool, IppError>)
        ensures
            typed_lookup_ok(
                self@.attributes,
                name@,
                |v: ValueView| v.boolean(),
                r,
            ),
    {
        match self.get(name) {
            Err(e) => Err(e),
            Ok(a) => match a.value.as_boolean() {
                Some(b) => Ok(*b),
                None => Err(IppError::InvalidAttributeType),
            },
        }
    }
}

/// Every group of a message, in order. One delimiter tag may stand over
/// several groups: a listing of printers brings one group per printer.
#[derive(Debug, PartialEq, Eq)]
pub struct IppAttributes {
    pub groups: Vec<IppAttributeGroup>,
}

/// The views of a vector of groups, in order.
pub open spec fn groups_view(groups: Seq<IppAttributeGroup>) -> Seq<GroupView> {
    Seq::new(groups.len(), |i: int| groups[i]@)
}

impl View for IppAttributes {
    type V = Seq<GroupView>;

    open spec fn view(&self) -> Seq<GroupView> {
        groups_view(self.groups@)
    }
}

/// The groups after `attribute` has been added under `tag`: it joins the last
/// group where that group has this tag, and opens a new group behind it
/// otherwise.
pub open spec fn spec_add(groups: Seq<GroupView>, tag: DelimiterTag, attribute: AttributeView) -> Seq<
    GroupView,
> {
    if groups.len() > 0 && groups.last().tag == tag {
        groups.drop_last().push(
            GroupView { tag, attributes: groups.last().attributes.push(attribute) },
        )
    } else {
        groups.push(GroupView { tag, attributes: seq![attribute] })
    }
}

impl IppAttributes {
    /// No groups.
    pub fn new() -> (a: IppAttributes)
        ensures
            a@ == Seq::<GroupView>::empty(),
    {
        let a = IppAttributes { groups: Vec::new() };
        assert(a@ =~= Seq::empty());
        a
    }

    /// The groups, in order.
    pub fn groups(&self) -> (g: &Vec<IppAttributeGroup>)
        ensures
            *g == self.groups,
    {
        &self.groups
    }

    /// Adds an attribute under a delimiter tag. Groups that came before the
    /// last one are never touched, so a tag that returns after another tag
    /// opens a new group.
    pub fn add(&mut self, tag: DelimiterTag, attribute: IppAttribute)
        ensures
            final(self)@ == spec_add(old(self)@, tag, attribute@),
    {
        let n: usize = self.groups.len();
        if n > 0 && self.groups[n - 1].tag == tag {
            let last = self.groups.pop();
            match last {
                Some(mut group) => {
                    let ghost before = group@;
                    assert(before == old(self)@.last());
                    group.attributes.push(attribute);
                    assert(group@.attributes =~= before.attributes.push(attribute@));
                    self.groups.push(group);
                    assert(self@ =~= spec_add(old(self)@, tag, attribute@));
                },
                None => {},
            }
        } else {
            let mut group = IppAttributeGroup { tag, attributes: Vec::new() };
            group.attributes.push(attribute);
            assert(group@.attributes =~= seq![attribute@]);
            self.groups.push(group);
            assert(self@ =~= spec_add(old(self)@, tag, attribute@));
        }
    }

    /// All groups under `tag`, in their order in the message.
    pub fn groups_of(&self, tag: DelimiterTag) -> (r: Vec<&IppAttributeGroup>)
        ensures
            Seq::new(r@.len(), |i: int| *r@[i]) == self.groups@.filter(
                |g: IppAttributeGroup| g.tag == tag,
            ),
            Seq::new(r@.len(), |i: int| r@[i]@) == self@.filter(|g: GroupView| g.tag == tag),
    {
        let mut r: Vec<&IppAttributeGroup> = Vec::new();
        let mut i: usize = 0;
        let ghost by_tag = |g: IppAttributeGroup| g.tag == tag;
        let ghost by_tag_view = |g: GroupView| g.tag == tag;
        proof {
            reveal(Seq::filter);
            assert(self.groups@.take(0) =~= Seq::empty());
            assert(self@.take(0) =~= Seq::empty());
            assert(Seq::new(r@.len(), |i: int| *r@[i]) =~= Seq::<IppAttributeGroup>::empty());
            assert(Seq::new(r@.len(), |i: int| r@[i]@) =~= Seq::<GroupView>::empty());
        }
        while i < self.groups.len()
            invariant
                0 <= i <= self.groups@.len(),
                by_tag == |g: IppAttributeGroup| g.tag == tag,
                by_tag_view == |g: GroupView| g.tag == tag,
                Seq::new(r@.len(), |i: int| *r@[i]) == self.groups@.take(i as int).filter(by_tag),
                Seq::new(r@.len(), |i: int| r@[i]@) == self@.take(i as int).filter(by_tag_view),
            decreases self.groups@.len() - i,
        {
            let ghost before = r@;
            if self.groups[i].tag == tag {
                r.push(&self.groups[i]);
            }
            proof {
                reveal(Seq::filter);
                let taken = self.groups@.take(i + 1);
                let taken_view = self@.take(i + 1);
                assert(taken.drop_last() =~= self.groups@.take(i as int));
                assert(taken_view.drop_last() =~= self@.take(i as int));
                assert(taken.last() == self.groups@[i as int]);
                assert(taken_view.last() == self.groups@[i as int]@);
                if self.groups@[i as int].tag == tag {
                    assert(Seq::new(r@.len(), |i: int| *r@[i]) =~= Seq::new(
                        before.len(),
                        |i: int| *before[i],
                    ).push(self.groups@[i as int]));
                    assert(Seq::new(r@.len(), |i: int| r@[i]@) =~= Seq::new(
                        before.len(),
                        |i: int| before[i]@,
                    ).push(self.groups@[i as int]@));
                }
            }
            i += 1;
        }
        proof {
            assert(self.groups@.take(i as int) =~= self.groups@);
            assert(self@.take(i as int) =~= self@);
        }
        r
    }
}

impl Clone for IppAttributeGroup {
    /// A copy with the same tag and the same attributes.
    fn clone(&self) -> (r: Self)
        ensures
            r@ == self@,
    {
        let mut copy: Vec<IppAttribute> = Vec::new();
        let mut i: usize = 0;
        while i < self.attributes.len()
            invariant
                0 <= i <= self.attributes@.len(),
                attributes_view(copy@) == self@.attributes.subrange(0, i as int),
            decreases self.attributes@.len() - i,
        {
            let a = self.attributes[i].clone();
            let ghost before = copy@;
            copy.push(a);
            assert(attributes_view(copy@) =~= attributes_view(before).push(a@));
            i += 1;
            assert(attributes_view(copy@) =~= self@.attributes.subrange(0, i as int));
        }
        assert(self@.attributes.subrange(0, i as int) =~= self@.attributes);
        IppAttributeGroup { tag: self.tag, attributes: copy }
    }
}

impl Clone for IppAttributes {
    /// A copy with the same groups.
    fn clone(&self) -> (r: Self)
        ensures
            r@ == self@,
    {
        let mut copy: Vec<IppAttributeGroup> = Vec::new();
        let mut i: usize = 0;
        while i < self.groups.len()
            invariant
                0 <= i <= self.groups@.len(),
                groups_view(copy@) == self@.subrange(0, i as int),
            decreases self.groups@.len() - i,
        {
            let g = self.groups[i].clone();
            let ghost before = copy@;
            copy.push(g);
            assert(groups_view(copy@) =~= groups_view(before).push(g@));
            i += 1;
            assert(groups_view(copy@) =~= self@.subrange(0, i as int));
        }
        assert(self@.subrange(0, i as int) =~= self@);
        IppAttributes { groups: copy }
    }
}

} // verus!
