use ipp_proto::attribute::{
    IppAttributeGroup, IppAttributes, ATTRIBUTES_CHARSET, ATTRIBUTES_NATURAL_LANGUAGE, PRINTER_URI,
};
use ipp_proto::error::IppError;
use ipp_proto::tag::DelimiterTag;
use ipp_proto::value::{IppAttribute, IppValue};

fn integer(name: &str, n: i32) -> IppAttribute {
    IppAttribute::new(name, IppValue::Integer(n))
}

fn sample_group() -> IppAttributeGroup {
    let mut g = IppAttributeGroup::new(DelimiterTag::PrinterAttributes);
    g.attributes.push(integer("copies", 2));
    g.attributes.push(IppAttribute::new("printer-state", IppValue::Enum(3)));
    g.attributes.push(IppAttribute::new("color", IppValue::Boolean(true)));
    g.attributes.push(integer("copies", 9));
    g.attributes.push(IppAttribute::new("gone", IppValue::NoValue));
    g
}

#[test]
fn attribute_holds_name_and_value() {
    let a = IppAttribute::new("copies", IppValue::Integer(2));
    assert_eq!(a.name(), "copies");
    assert_eq!(a.value(), &IppValue::Integer(2));
    assert_eq!(a.name, "copies".to_string());
}

#[test]
fn well_known_names() {
    assert_eq!(ATTRIBUTES_CHARSET, "attributes-charset");
    assert_eq!(ATTRIBUTES_NATURAL_LANGUAGE, "attributes-natural-language");
    assert_eq!(PRINTER_URI, "printer-uri");
}

#[test]
fn add_appends_to_the_trailing_group_of_that_tag() {
    let mut a = IppAttributes::new();
    assert_eq!(a.groups().len(), 0);
    a.add(DelimiterTag::OperationAttributes, integer("a", 1));
    a.add(DelimiterTag::OperationAttributes, integer("b", 2));
    assert_eq!(a.groups().len(), 1);
    assert_eq!(a.groups()[0].tag(), DelimiterTag::OperationAttributes);
    assert_eq!(a.groups()[0].attributes().len(), 2);
    assert_eq!(a.groups()[0].attributes()[0], integer("a", 1));
    assert_eq!(a.groups()[0].attributes()[1], integer("b", 2));
}

#[test]
fn add_opens_a_new_group_when_the_tag_returns() {
    let mut a = IppAttributes::new();
    a.add(DelimiterTag::PrinterAttributes, integer("a", 1));
    a.add(DelimiterTag::JobAttributes, integer("b", 2));
    a.add(DelimiterTag::PrinterAttributes, integer("c", 3));
    a.add(DelimiterTag::PrinterAttributes, integer("d", 4));
    let tags: Vec<DelimiterTag> = a.groups().iter().map(|g| g.tag()).collect();
    assert_eq!(
        tags,
        vec![
            DelimiterTag::PrinterAttributes,
            DelimiterTag::JobAttributes,
            DelimiterTag::PrinterAttributes
        ]
    );
    assert_eq!(a.groups()[0].attributes(), &vec![integer("a", 1)]);
    assert_eq!(a.groups()[1].attributes(), &vec![integer("b", 2)]);
    assert_eq!(a.groups()[2].attributes(), &vec![integer("c", 3), integer("d", 4)]);
}

#[test]
fn groups_of_returns_matching_groups_in_order() {
    let mut a = IppAttributes::new();
    a.add(DelimiterTag::OperationAttributes, integer("o", 0));
    a.add(DelimiterTag::PrinterAttributes, integer("p", 1));
    a.add(DelimiterTag::JobAttributes, integer("j", 2));
    a.add(DelimiterTag::PrinterAttributes, integer("p", 3));
    let printers = a.groups_of(DelimiterTag::PrinterAttributes);
    assert_eq!(printers.len(), 2);
    assert_eq!(printers[0].attributes(), &vec![integer("p", 1)]);
    assert_eq!(printers[1].attributes(), &vec![integer("p", 3)]);
    assert_eq!(a.groups_of(DelimiterTag::JobAttributes).len(), 1);
    assert_eq!(a.groups_of(DelimiterTag::UnsupportedAttributes).len(), 0);
    let again = a.groups_of(DelimiterTag::PrinterAttributes);
    assert_eq!(again.len(), 2);
}

#[test]
fn lookup_returns_the_first_attribute_of_that_name() {
    let g = sample_group();
    assert_eq!(g.position("copies"), Some(0));
    assert_eq!(g.position("color"), Some(2));
    assert_eq!(g.get("copies"), Ok(&integer("copies", 2)));
    assert_eq!(g.get("printer-state").map(|a| a.value()), Ok(&IppValue::Enum(3)));
}

#[test]
fn lookup_of_an_absent_name_is_attribute_not_found() {
    let g = sample_group();
    assert_eq!(g.position("absent"), None);
    assert_eq!(g.get("absent"), Err(IppError::AttributeNotFound("absent".to_string())));
    assert_eq!(g.get("Copies"), Err(IppError::AttributeNotFound("Copies".to_string())));
    assert_eq!(g.get(""), Err(IppError::AttributeNotFound(String::new())));
    let empty = IppAttributeGroup::new(DelimiterTag::JobAttributes);
    assert_eq!(empty.get("copies"), Err(IppError::AttributeNotFound("copies".to_string())));
}

#[test]
fn a_failed_lookup_leaves_the_group_usable() {
    let g = sample_group();
    assert!(g.get("absent").is_err());
    assert_eq!(g.get_integer("printer-state"), Err(IppError::InvalidAttributeType));
    assert_eq!(g.get_enum("printer-state"), Ok(3));
    assert_eq!(g.get("color").map(|a| a.name()), Ok("color"));
}

#[test]
fn typed_lookup_returns_the_content() {
    let g = sample_group();
    assert_eq!(g.get_integer("copies"), Ok(2));
    assert_eq!(g.get_enum("printer-state"), Ok(3));
    assert_eq!(g.get_boolean("color"), Ok(true));
}

#[test]
fn typed_lookup_of_text_accepts_every_plain_string_kind() {
    let mut g = IppAttributeGroup::new(DelimiterTag::PrinterAttributes);
    g.attributes.push(IppAttribute::new("n", IppValue::NameWithoutLanguage("laser".to_string())));
    g.attributes.push(IppAttribute::new("u", IppValue::Uri("ipp://h".to_string())));
    g.attributes.push(IppAttribute::new("k", IppValue::Keyword("idle".to_string())));
    g.attributes.push(IppAttribute::new("o", IppValue::OctetString(b"idle".to_vec())));
    assert_eq!(g.get_string("n"), Ok(&"laser".to_string()));
    assert_eq!(g.get_string("u"), Ok(&"ipp://h".to_string()));
    assert_eq!(g.get_string("k"), Ok(&"idle".to_string()));
    assert_eq!(g.get_string("o"), Err(IppError::InvalidAttributeType));
    assert_eq!(g.get_string("x"), Err(IppError::AttributeNotFound("x".to_string())));
}

#[test]
fn typed_lookup_of_another_kind_is_invalid_attribute_type() {
    let g = sample_group();
    assert_eq!(g.get_enum("copies"), Err(IppError::InvalidAttributeType));
    assert_eq!(g.get_integer("color"), Err(IppError::InvalidAttributeType));
    assert_eq!(g.get_boolean("printer-state"), Err(IppError::InvalidAttributeType));
}

#[test]
fn typed_lookup_of_an_out_of_band_value_is_invalid_attribute_type() {
    let g = sample_group();
    assert_eq!(g.get_integer("gone"), Err(IppError::InvalidAttributeType));
    assert_eq!(g.get_enum("gone"), Err(IppError::InvalidAttributeType));
    assert_eq!(g.get_boolean("gone"), Err(IppError::InvalidAttributeType));
}

#[test]
fn typed_lookup_of_an_absent_name_is_attribute_not_found() {
    let g = sample_group();
    assert_eq!(g.get_enum("absent"), Err(IppError::AttributeNotFound("absent".to_string())));
    assert_eq!(g.get_integer("absent"), Err(IppError::AttributeNotFound("absent".to_string())));
    assert_eq!(g.get_boolean("absent"), Err(IppError::AttributeNotFound("absent".to_string())));
}

#[test]
fn well_formedness_of_attributes_and_groups() {
    assert!(integer("a", 1).is_wf());
    assert!(!integer("", 1).is_wf());
    assert!(integer(&"n".repeat(0xffff), 1).is_wf());
    assert!(!integer(&"n".repeat(0x1_0000), 1).is_wf());
    assert!(!IppAttribute::new("a", IppValue::ListOf(vec![])).is_wf());
    assert!(sample_group().is_wf());
    assert!(IppAttributeGroup::new(DelimiterTag::JobAttributes).is_wf());
    assert!(!IppAttributeGroup::new(DelimiterTag::EndOfAttributes).is_wf());
    let mut g = sample_group();
    g.attributes.push(integer("", 1));
    assert!(!g.is_wf());
    let mut a = IppAttributes::new();
    assert!(a.is_wf());
    a.add(DelimiterTag::JobAttributes, integer("a", 1));
    assert!(a.is_wf());
    a.add(DelimiterTag::EndOfAttributes, integer("a", 1));
    assert!(!a.is_wf());
}

#[test]
fn clones_are_equal_and_independent() {
    let deep = IppValue::Collection(vec![
        IppAttribute::new(
            "list",
            IppValue::ListOf(vec![
                IppValue::Keyword("a".to_string()),
                IppValue::Collection(vec![IppAttribute::new("x", IppValue::OctetString(vec![1, 2]))]),
            ]),
        ),
        IppAttribute::new(
            "t",
            IppValue::TextWithLanguage { language: "en".to_string(), text: "x".to_string() },
        ),
    ]);
    let copy = deep.clone();
    assert_eq!(copy, deep);
    let a = IppAttribute::new("col", deep);
    assert_eq!(a.clone(), a);
    let mut all = IppAttributes::new();
    all.add(DelimiterTag::JobAttributes, a);
    all.add(DelimiterTag::PrinterAttributes, integer("n", 1));
    let mut copy = all.clone();
    assert_eq!(copy, all);
    assert_eq!(all.groups()[0].clone(), all.groups()[0]);
    copy.add(DelimiterTag::PrinterAttributes, integer("m", 2));
    assert_ne!(copy, all);
    assert_eq!(all.groups()[1].attributes().len(), 1);
}
