use udl_codegen::udl::class::{get_entry, Class, Property, PropertyKey};
use udl_codegen::udl::enums::{
    get_field, same_fields, same_optional_text, Enum, EnumKind, EnumVariant, EnumVariantValue,
};
use udl_codegen::udl::generator::{find_error_enum, merge_imports};

fn text(s: &str) -> String {
    s.to_string()
}

fn paid(fields: Vec<(&str, &str)>) -> EnumKind {
    EnumKind::Complex(EnumVariant {
        id: text("PAID"),
        description: None,
        value: EnumVariantValue::Multiple(
            fields.into_iter().map(|(k, v)| (text(k), text(v))).collect(),
        ),
        target: None,
        target_field: None,
    })
}

#[test]
fn variants_are_equal_when_their_parts_are() {
    assert!(EnumKind::Simple(text("A")) == EnumKind::Simple(text("A")));
    assert!(EnumKind::Simple(text("A")) != EnumKind::Simple(text("B")));
    assert!(EnumKind::Simple(text("PAID")) != paid(vec![]));
    let a = EnumVariant {
        id: text("K"),
        description: Some(text("d")),
        value: EnumVariantValue::Single(text("v")),
        target: Some(text("limit:min")),
        target_field: None,
    };
    let mut b = a.clone();
    assert!(a == b);
    b.target_field = Some(text("name"));
    assert!(a != b);
    b = a.clone();
    b.description = None;
    assert!(a != b);
    b = a.clone();
    b.value = EnumVariantValue::Single(text("w"));
    assert!(a != b);
    b = a.clone();
    b.value = EnumVariantValue::Multiple(vec![]);
    assert!(a != b);
    b = a.clone();
    b.id = text("L");
    assert!(a != b);
    b = a.clone();
    b.target = None;
    assert!(a != b);
}

#[test]
fn fields_of_a_variant_are_a_mapping() {
    let forth = paid(vec![("timestamp", "int"), ("customer_id", "string")]);
    let back = paid(vec![("customer_id", "string"), ("timestamp", "int")]);
    assert!(forth == back);
    assert!(forth != paid(vec![("timestamp", "int")]));
    assert!(paid(vec![("timestamp", "int")]) != forth);
    assert!(forth != paid(vec![("timestamp", "int"), ("customer_id", "int")]));
    assert!(paid(vec![]) == paid(vec![]));
    assert!(
        paid(vec![("a", "int"), ("a", "string")]) == paid(vec![("a", "string")]),
        "the last entry of a name gives its type"
    );
    assert!(paid(vec![("a", "int"), ("a", "string")]) != paid(vec![("a", "int")]));
}

#[test]
fn field_lookup_gives_the_last_entry() {
    let fields = vec![(text("a"), text("int")), (text("b"), text("bool")), (text("a"), text("string"))];
    assert_eq!(get_field(&fields, &text("a")), Some(&text("string")));
    assert_eq!(get_field(&fields, &text("b")), Some(&text("bool")));
    assert_eq!(get_field(&fields, &text("c")), None);
    assert!(same_fields(&fields, &vec![(text("b"), text("bool")), (text("a"), text("string"))]));
    assert!(!same_fields(&fields, &vec![(text("b"), text("bool"))]));
    assert!(same_optional_text(&None, &None));
    assert!(same_optional_text(&Some(text("x")), &Some(text("x"))));
    assert!(!same_optional_text(&Some(text("x")), &None));
    assert!(!same_optional_text(&None, &Some(text("x"))));
    assert!(!same_optional_text(&Some(text("x")), &Some(text("y"))));
}

#[test]
fn entry_lookup_gives_the_first_entry() {
    let entries = vec![
        (PropertyKey::Type, text("string")),
        (PropertyKey::Limit, text("1...100")),
        (PropertyKey::Type, text("int")),
    ];
    assert_eq!(get_entry(&entries, PropertyKey::Type), Some(&text("string")));
    assert_eq!(get_entry(&entries, PropertyKey::Limit), Some(&text("1...100")));
    assert_eq!(get_entry(&entries, PropertyKey::Format), None);
}

#[test]
fn property_knows_its_type_and_its_validators() {
    let bare = Property::Type(text("string?"));
    assert_eq!(bare.raw_type(), Some(&text("string?")));
    assert!(!bare.has_validator());
    assert!(bare.is_well_formed());
    let described = Property::Mapping(vec![
        (PropertyKey::Description, text("d")),
        (PropertyKey::Type, text("int")),
        (PropertyKey::Private, text("true")),
    ]);
    assert_eq!(described.raw_type(), Some(&text("int")));
    assert!(!described.has_validator());
    assert!(described.is_well_formed());
    for key in [
        PropertyKey::Limit,
        PropertyKey::Format,
        PropertyKey::Default,
        PropertyKey::Min,
        PropertyKey::Max,
    ] {
        assert!(key.validates());
        let p = Property::Mapping(vec![(PropertyKey::Type, text("int")), (key, text("1"))]);
        assert!(p.has_validator());
    }
    for key in [PropertyKey::Description, PropertyKey::Type, PropertyKey::Private] {
        assert!(!key.validates());
    }
    let untyped = Property::Mapping(vec![(PropertyKey::Format, text("uuid"))]);
    assert_eq!(untyped.raw_type(), None);
    assert!(!untyped.is_well_formed());
    let twice = Property::Mapping(vec![
        (PropertyKey::Type, text("int")),
        (PropertyKey::Min, text("1")),
        (PropertyKey::Min, text("2")),
    ]);
    assert!(!twice.is_well_formed());
}

#[test]
fn properties_are_equal_when_they_say_the_same() {
    let typed = |ty: &str| Property::Type(text(ty));
    assert!(typed("int") == typed("int"));
    assert!(typed("int") != typed("int?"));
    let entries = Property::Mapping(vec![
        (PropertyKey::Type, text("string")),
        (PropertyKey::Limit, text("1...100")),
    ]);
    let turned = Property::Mapping(vec![
        (PropertyKey::Limit, text("1...100")),
        (PropertyKey::Type, text("string")),
    ]);
    assert!(entries == turned);
    assert_eq!(entries, entries.clone());
    assert!(entries != Property::Mapping(vec![(PropertyKey::Type, text("string"))]));
    assert!(Property::Mapping(vec![(PropertyKey::Type, text("string"))]) != entries);
    assert!(
        entries
            != Property::Mapping(vec![
                (PropertyKey::Type, text("string")),
                (PropertyKey::Limit, text("1...10")),
            ])
    );
    assert!(typed("string") != Property::Mapping(vec![(PropertyKey::Type, text("string"))]));
    assert!(Property::Mapping(vec![]) == Property::Mapping(vec![]));
    for key in [
        PropertyKey::Description,
        PropertyKey::Type,
        PropertyKey::Format,
        PropertyKey::Limit,
        PropertyKey::Min,
        PropertyKey::Max,
        PropertyKey::Private,
        PropertyKey::Default,
    ] {
        let one = Property::Mapping(vec![(key, text("a"))]);
        assert!(one == one.clone());
        assert!(one != Property::Mapping(vec![(key, text("b"))]));
        assert!(one != Property::Mapping(vec![]));
    }
}

#[test]
fn class_knows_its_validators_and_its_form() {
    let mut class = Class {
        id: text("C"),
        description: None,
        immutable: None,
        error: None,
        properties: vec![
            (text("a"), Property::Type(text("int"))),
            (text("b"), Property::Mapping(vec![(PropertyKey::Type, text("int"))])),
        ],
    };
    assert!(!class.has_validator());
    assert!(class.is_well_formed());
    class.properties.push((
        text("c"),
        Property::Mapping(vec![(PropertyKey::Type, text("int")), (PropertyKey::Max, text("3"))]),
    ));
    assert!(class.has_validator());
    assert!(class.is_well_formed());
    class.properties.push((text("a"), Property::Type(text("int"))));
    assert!(!class.is_well_formed());
    class.properties.pop();
    class.properties.push((text("d"), Property::Mapping(vec![])));
    assert!(!class.is_well_formed());
}

#[test]
fn error_enum_is_found_by_its_name() {
    let named = |id: &str, first: &str| Enum {
        id: text(id),
        description: None,
        variants: vec![EnumKind::Simple(text(first))],
    };
    let enums = vec![named("A", "1"), named("B", "2"), named("A", "3"), named("", "4")];
    let mut class = Class {
        id: text("C"),
        description: None,
        immutable: None,
        error: Some(text("A")),
        properties: vec![],
    };
    let found = find_error_enum(&enums, &class).unwrap();
    assert!(found.variants[0] == EnumKind::Simple(text("1")));
    class.error = Some(text("B"));
    assert!(find_error_enum(&enums, &class).unwrap().variants[0] == EnumKind::Simple(text("2")));
    class.error = Some(text("Z"));
    assert!(find_error_enum(&enums, &class).is_none());
    class.error = None;
    assert!(find_error_enum(&enums, &class).unwrap().variants[0] == EnumKind::Simple(text("4")));
    assert!(find_error_enum(&enums[..3].to_vec(), &class).is_none());
}

#[test]
fn imports_are_merged_without_repeats() {
    let mut imports = vec![text("a"), text("b")];
    merge_imports(&mut imports, &vec![text("b"), text("c"), text("c"), text("a"), text("d")]);
    assert_eq!(imports, vec!["a", "b", "c", "d"]);
    merge_imports(&mut imports, &vec![]);
    assert_eq!(imports, vec!["a", "b", "c", "d"]);
    let mut empty: Vec<String> = Vec::new();
    merge_imports(&mut empty, &vec![text("x"), text("x")]);
    assert_eq!(empty, vec!["x"]);
}
