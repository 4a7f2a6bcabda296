use udl_codegen::rust::{
    append_accessors, append_bound_check, append_constructor, append_factory, append_fields,
    append_methods, append_property_checks, append_value_arm, append_value_members, check_of,
    clean_type_name, field_of, fields_of, is_number, names_of, operand_of, parameters_of,
    process_type, type_name_of, RustField, RustGenerator,
};
use udl_codegen::udl::class::{Class, Property, PropertyKey};
use udl_codegen::udl::document::{ProjectAuthor, ProjectMeta, UDL};
use udl_codegen::udl::enums::{Enum, EnumKind, EnumVariant, EnumVariantValue};
use udl_codegen::udl::generator::{first_rejected_class, LangGenerator};

fn text(s: &str) -> String {
    s.to_string()
}

fn user() -> Class {
    Class {
        id: text("User"),
        description: Some(text("User profile data")),
        immutable: Some(true),
        error: Some(text("UserError")),
        properties: vec![
            (text("id"), Property::Type(text("string"))),
            (
                text("company"),
                Property::Mapping(vec![
                    (PropertyKey::Type, text("string?")),
                    (PropertyKey::Limit, text("2...40")),
                ]),
            ),
            (
                text("age"),
                Property::Mapping(vec![
                    (PropertyKey::Description, text("Age in years")),
                    (PropertyKey::Type, text("uint8^")),
                    (PropertyKey::Limit, text("18..21..120")),
                ]),
            ),
            (
                text("pass_hash"),
                Property::Mapping(vec![
                    (PropertyKey::Private, text("true")),
                    (PropertyKey::Type, text("$enum::Hash?")),
                ]),
            ),
        ],
    }
}

fn point() -> Class {
    Class {
        id: text("Point"),
        description: None,
        immutable: None,
        error: None,
        properties: vec![
            (text("x"), Property::Type(text("int"))),
            (text("y"), Property::Type(text("int"))),
        ],
    }
}

fn error_case(id: &str, target: &str, field: Option<&str>) -> EnumKind {
    EnumKind::Complex(EnumVariant {
        id: text(id),
        description: None,
        value: EnumVariantValue::Single(text(id)),
        target: Some(text(target)),
        target_field: field.map(text),
    })
}

fn user_error() -> Enum {
    Enum {
        id: text("UserError"),
        description: None,
        variants: vec![
            error_case("TooYoung", "limit:min", Some("age")),
            error_case("TooShort", "limit:min", Some("company")),
            error_case("TooMuch", "limit:max", None),
        ],
    }
}

fn document(enums: Vec<Enum>, models: Vec<Class>) -> UDL {
    UDL {
        version: text("1"),
        project: ProjectMeta {
            name: text("billing"),
            version: text("0.1.0"),
            description: text(""),
            authors: vec![ProjectAuthor::new(text("Ada"), text("ada@example.org"))],
            license: text("MIT"),
            namespace: text("billing"),
            models_only: false,
            target_platforms: vec![text("rust")],
        },
        enums,
        models,
    }
}

const USER_STRUCT: &str = "/// User profile data\npub struct User {    pub id: String,    pub company: Option<String>,/// Age in years\n    pub age: u8,     pass_hash: Option<Hash>,}\n";

const USER_PARAMETERS: &str = "id: String, company: Option<String>, age: u8, pass_hash: Option<Hash>";

const USER_CHECKS: &str = "        if company.as_ref().map_or(2, |v| v.len() as isize) < 2 {\n            return Err(UserError::TooShort);\n        }\n        if company.as_ref().map_or(40, |v| v.len() as isize) > 40 {\n            return Err(UserError::TooMuch);\n        }\n        if age < 18 {\n            return Err(UserError::TooYoung);\n        }\n        if age > 120 {\n            return Err(UserError::TooMuch);\n        }\n";

const USER_ACCESSORS: &str = "    pub fn pass_hash(&self) -> &Option<Hash> {\n        &self.pass_hash\n    }\n";

fn user_factory() -> String {
    format!(
        "    pub fn build({}) -> Result<Self, UserError> {{\n{}        Ok(Self::new(id, company, age, pass_hash))\n    }}\n",
        USER_PARAMETERS, USER_CHECKS
    )
}

fn user_methods() -> String {
    format!(
        "\nimpl User {{\n    fn new({}) -> Self {{\n        Self {{ id, company, age, pass_hash }}\n    }}\n{}{}}}\n",
        USER_PARAMETERS,
        user_factory(),
        USER_ACCESSORS
    )
}

fn user_rust() -> String {
    format!("{}{}", USER_STRUCT, user_methods())
}

const POINT_RUST: &str = "pub struct Point {    pub x: i32,    pub y: i32,}\n\nimpl Point {\n    pub fn new(x: i32, y: i32) -> Self {\n        Self { x, y }\n    }\n}\n";

#[test]
fn extension_and_formatter_of_rust() {
    assert_eq!(RustGenerator().extension(), "rs");
    assert_eq!(RustGenerator().formatter(), Some("rustfmt"));
}

#[test]
fn author_keeps_name_and_address() {
    let author = ProjectAuthor::new(text("Ada"), text("ada@example.org"));
    assert_eq!(author.name(), "Ada");
    assert_eq!(author.email(), "ada@example.org");
}

#[test]
fn rust_types_of_type_strings() {
    assert_eq!(clean_type_name("$enum::Status?^"), "Status");
    assert_eq!(process_type("bool"), "bool");
    assert_eq!(process_type("int"), "i32");
    assert_eq!(process_type("int32"), "i32");
    assert_eq!(process_type("int8"), "i8");
    assert_eq!(process_type("int16"), "i16");
    assert_eq!(process_type("int64"), "i64");
    assert_eq!(process_type("isize"), "isize");
    assert_eq!(process_type("usize"), "usize");
    assert_eq!(process_type("uint8"), "u8");
    assert_eq!(process_type("uint16"), "u16");
    assert_eq!(process_type("uint32"), "u32");
    assert_eq!(process_type("uint64"), "u64");
    assert_eq!(process_type("float"), "f64");
    assert_eq!(process_type("float32"), "f32");
    assert_eq!(process_type("float64"), "f64");
    assert_eq!(process_type("string"), "String");
    assert_eq!(process_type("string?"), "Option<String>");
    assert_eq!(process_type("datetime"), "datetime");
    assert_eq!(process_type("$enum::Status?"), "Option<Status>");
    assert_eq!(process_type("Address^"), "Address");
    assert_eq!(process_type("?"), "Option<>");
}

#[test]
fn rust_enum_has_a_case_for_each_variant() {
    let status = Enum {
        id: text("InvoiceStatus"),
        description: Some(text("Status of an invoice")),
        variants: vec![
            EnumKind::Simple(text("DRAFT")),
            EnumKind::Complex(EnumVariant {
                id: text("SENT"),
                description: None,
                value: EnumVariantValue::Single(text("sent")),
                target: None,
                target_field: None,
            }),
            EnumKind::Complex(EnumVariant {
                id: text("PAID"),
                description: Some(text("Payment received")),
                value: EnumVariantValue::Multiple(vec![(text("timestamp"), text("int"))]),
                target: None,
                target_field: None,
            }),
        ],
    };
    let expected = [
        "/// Status of an invoice\nenum InvoiceStatus {DRAFT,SENT,/// Payment received\nPAID,}",
        "\n\nimpl InvoiceStatus {\n    pub fn value(&self) -> &'static str {\n        match self {\n",
        "            InvoiceStatus::DRAFT => \"\",\n",
        "            InvoiceStatus::SENT => \"sent\",\n",
        "            InvoiceStatus::PAID => \"\",\n",
        "        }\n    }\n}",
    ]
    .concat();
    assert_eq!(RustGenerator().gen_enum(&status), expected);
}

#[test]
fn rust_enum_of_bare_names_is_plain() {
    let sort_by = Enum {
        id: text("SortBy"),
        description: None,
        variants: vec![EnumKind::Simple(text("K_ID")), EnumKind::Simple(text("K_NAME"))],
    };
    assert_eq!(RustGenerator().gen_enum(&sort_by), "enum SortBy {K_ID,K_NAME,}");
    let empty = Enum { id: text("Nothing"), description: None, variants: vec![] };
    assert_eq!(RustGenerator().gen_enum(&empty), "enum Nothing {}");
}

#[test]
fn one_complex_variant_gives_the_whole_rust_enum_values() {
    let status = Enum {
        id: text("Status"),
        description: None,
        variants: vec![
            EnumKind::Simple(text("OK")),
            EnumKind::Complex(EnumVariant {
                id: text("FAILED"),
                description: None,
                value: EnumVariantValue::Single(text("It failed")),
                target: None,
                target_field: None,
            }),
        ],
    };
    let code = RustGenerator().gen_enum(&status);
    assert_eq!(
        code,
        "enum Status {OK,FAILED,}\n\nimpl Status {\n    pub fn value(&self) -> &'static str {\n        match self {\n            Status::OK => \"\",\n            Status::FAILED => \"It failed\",\n        }\n    }\n}"
    );
    assert!(code.contains("Status::FAILED => \"It failed\""));
    assert!(code.contains("Status::OK => \"\""));
    let mut arm = String::new();
    append_value_arm(&mut arm, &status.id, &status.variants[1]);
    assert_eq!(arm, "            Status::FAILED => \"It failed\",\n");
    let mut members = text("x");
    append_value_members(&mut members, &status);
    assert!(members.starts_with("x\n\nimpl Status {"));
    assert!(status.has_complex());
    assert_eq!(status.variants[0].name(), "OK");
    assert_eq!(status.variants[1].name(), "FAILED");
}

#[test]
fn rust_struct_has_a_field_for_each_property() {
    let (code, imports) = RustGenerator().gen_class(&user(), Some(&user_error()));
    assert_eq!(code, user_rust());
    assert!(imports.is_empty());
    let mut fields = text("{");
    append_fields(&mut fields, &user());
    assert_eq!(format!("/// User profile data\npub struct User {}}}\n", fields), USER_STRUCT);
}

#[test]
fn rust_struct_with_a_validator_is_built_through_its_factory() {
    let (code, _) = RustGenerator().gen_class(&user(), Some(&user_error()));
    assert!(code.contains("\n    fn new("));
    assert!(!code.contains("pub fn new("));
    assert!(code.contains("    pub fn build("));
    assert!(code.contains("-> Result<Self, UserError> {"));
    assert!(code.contains("Ok(Self::new(id, company, age, pass_hash))"));
}

#[test]
fn rust_struct_without_a_validator_has_a_public_constructor() {
    let (code, imports) = RustGenerator().gen_class(&point(), None);
    assert_eq!(code, POINT_RUST);
    assert!(imports.is_empty());
    assert!(!code.contains("build"));
    let mut named = point();
    named.error = Some(text("PointError"));
    let (code, _) = RustGenerator().gen_class(&named, Some(&user_error()));
    assert_eq!(code, POINT_RUST);
}

#[test]
fn rust_field_is_read_off_a_property() {
    let class = user();
    let field = field_of(&class.properties[1].0, &class.properties[1].1);
    assert_eq!(field.name, "company");
    assert_eq!(field.base, "String");
    assert_eq!(field.ty, "Option<String>");
    assert!(field.nullable);
    assert!(!field.private);
    let field = field_of(&class.properties[2].0, &class.properties[2].1);
    assert_eq!(field.base, "u8");
    assert_eq!(field.ty, "u8");
    assert!(!field.nullable);
    let field = field_of(&class.properties[3].0, &class.properties[3].1);
    assert_eq!(field.base, "Hash");
    assert_eq!(field.ty, "Option<Hash>");
    assert!(field.private);
    let fields = fields_of(&class);
    assert_eq!(fields.len(), 4);
    assert_eq!(fields[0].name, "id");
    assert_eq!(fields[3].name, "pass_hash");
    assert_eq!(type_name_of("$enum::Hash?"), "Hash");
    assert_eq!(type_name_of("int64?"), "i64");
}

#[test]
fn rust_members_are_written_for_given_fields() {
    let fields = vec![
        RustField {
            name: text("title"),
            base: text("String"),
            ty: text("String"),
            nullable: false,
            private: true,
        },
        RustField {
            name: text("pages"),
            base: text("u16"),
            ty: text("Option<u16>"),
            nullable: true,
            private: false,
        },
    ];
    assert_eq!(parameters_of(&fields), "title: String, pages: Option<u16>");
    assert_eq!(names_of(&fields), "title, pages");
    assert_eq!(parameters_of(&vec![]), "");
    assert_eq!(names_of(&vec![]), "");
    let mut code = text("x");
    append_constructor(&mut code, false, &fields);
    assert_eq!(
        code,
        "x    pub fn new(title: String, pages: Option<u16>) -> Self {\n        Self { title, pages }\n    }\n"
    );
    let mut code = String::new();
    append_constructor(&mut code, true, &fields);
    assert_eq!(
        code,
        "    fn new(title: String, pages: Option<u16>) -> Self {\n        Self { title, pages }\n    }\n"
    );
    let mut code = text("x");
    append_accessors(&mut code, &fields);
    assert_eq!(code, "x    pub fn title(&self) -> &String {\n        &self.title\n    }\n");
}

#[test]
fn rust_check_compares_a_number_or_a_length() {
    for name in ["i8", "i16", "i32", "i64", "isize", "u8", "u16", "u32", "u64", "usize", "f32", "f64"]
    {
        assert!(is_number(name), "{}", name);
    }
    for name in ["String", "bool", "int", "Hash", "", "i128", "u8 "] {
        assert!(!is_number(name), "{}", name);
    }
    let number = RustField {
        name: text("age"),
        base: text("u8"),
        ty: text("Option<u8>"),
        nullable: true,
        private: false,
    };
    assert_eq!(operand_of(&number, 18), "age");
    let optional = RustField {
        name: text("company"),
        base: text("String"),
        ty: text("Option<String>"),
        nullable: true,
        private: false,
    };
    assert_eq!(operand_of(&optional, -7), "company.as_ref().map_or(-7, |v| v.len() as isize)");
    let plain = RustField {
        name: text("id"),
        base: text("String"),
        ty: text("String"),
        nullable: false,
        private: false,
    };
    assert_eq!(operand_of(&plain, 3), "(id.len() as isize)");
    assert_eq!(
        check_of(&plain, &text("E"), "Short", true, 3),
        "        if (id.len() as isize) < 3 {\n            return Err(E::Short);\n        }\n"
    );
    assert_eq!(
        check_of(&number, &text("E"), "Old", false, 120),
        "        if age > 120 {\n            return Err(E::Old);\n        }\n"
    );
}

#[test]
fn rust_check_is_written_only_for_a_resolved_variant() {
    let errors = user_error();
    let class = user();
    let id = field_of(&class.properties[0].0, &class.properties[0].1);
    let mut code = text("x");
    append_bound_check(&mut code, &id, &text("id"), &errors, true, 1);
    assert_eq!(code, "x");
    append_bound_check(&mut code, &id, &text("id"), &errors, false, 9);
    assert_eq!(
        code,
        "x        if (id.len() as isize) > 9 {\n            return Err(UserError::TooMuch);\n        }\n"
    );
    let age = field_of(&class.properties[2].0, &class.properties[2].1);
    let mut code = String::new();
    append_property_checks(&mut code, &age, &class.properties[2].0, &class.properties[2].1, &errors);
    assert_eq!(
        code,
        "        if age < 18 {\n            return Err(UserError::TooYoung);\n        }\n        if age > 120 {\n            return Err(UserError::TooMuch);\n        }\n"
    );
    let mut code = String::new();
    append_property_checks(&mut code, &id, &class.properties[0].0, &class.properties[0].1, &errors);
    assert_eq!(code, "");
    let mut code = String::new();
    append_factory(&mut code, &class, &fields_of(&class), &errors);
    assert_eq!(code, user_factory());
    let mut code = String::new();
    append_methods(&mut code, &class, Some(&errors));
    assert_eq!(code, user_methods());
}

#[test]
fn rust_factory_without_variants_checks_nothing() {
    let errors = Enum { id: text("UserError"), description: None, variants: vec![] };
    let (code, _) = RustGenerator().gen_class(&user(), Some(&errors));
    assert!(code.contains(&format!(
        "    pub fn build({}) -> Result<Self, UserError> {{\n        Ok(Self::new(id, company, age, pass_hash))\n    }}\n",
        USER_PARAMETERS
    )));
    assert!(!code.contains("return Err"));
}

#[test]
fn rust_accepts_well_formed_classes() {
    let errors = user_error();
    assert!(RustGenerator().accepts_class(&user(), Some(&errors)));
    assert!(!RustGenerator().accepts_class(&user(), None));
    assert!(RustGenerator().accepts_class(&point(), None));
    let mut untyped = user();
    untyped.properties.push((
        text("x"),
        Property::Mapping(vec![(PropertyKey::Format, text("uuid"))]),
    ));
    assert!(!RustGenerator().accepts_class(&untyped, Some(&errors)));
    let mut without_error = user();
    without_error.error = None;
    assert!(!RustGenerator().accepts_class(&without_error, Some(&errors)));
    assert!(!RustGenerator().accepts_class(&without_error, None));
    without_error.properties.remove(2);
    without_error.properties.remove(1);
    assert!(RustGenerator().accepts_class(&without_error, None));
    let mut twice = user();
    twice.properties.push((text("id"), Property::Type(text("int"))));
    assert!(!RustGenerator().accepts_class(&twice, Some(&errors)));
    let mut unreadable = user();
    unreadable.properties.push((
        text("y"),
        Property::Mapping(vec![
            (PropertyKey::Type, text("int")),
            (PropertyKey::Limit, text("not a range")),
        ]),
    ));
    assert!(!RustGenerator().accepts_class(&unreadable, Some(&errors)));
    let doc = document(vec![user_error()], vec![user(), untyped, user()]);
    assert_eq!(first_rejected_class(&RustGenerator(), &doc), Some(1));
    let doc = document(vec![user_error()], vec![user()]);
    assert_eq!(first_rejected_class(&RustGenerator(), &doc), None);
    let doc = document(vec![], vec![point(), user()]);
    assert_eq!(first_rejected_class(&RustGenerator(), &doc), Some(1));
}

#[test]
fn rust_document_has_enums_then_classes() {
    let sort_by = Enum {
        id: text("SortBy"),
        description: None,
        variants: vec![EnumKind::Simple(text("K_ID")), EnumKind::Simple(text("K_NAME"))],
    };
    let doc = document(vec![sort_by, user_error()], vec![user(), point()]);
    let code = RustGenerator().generate(&doc);
    assert_eq!(
        code,
        format!(
            "enum SortBy {{K_ID,K_NAME,}}\n\n{}\n\n{}\n\n{}\n\n",
            RustGenerator().gen_enum(&user_error()),
            user_rust(),
            POINT_RUST
        )
    );
    assert_eq!(RustGenerator().generate(&doc), code);
    assert_eq!(RustGenerator().generate(&document(vec![], vec![])), "");
}

#[test]
fn value_method_stands_only_in_an_enum_with_values() {
    let plain = Enum {
        id: text("SortBy"),
        description: Some(text("pub fn value(&self)")),
        variants: vec![EnumKind::Simple(text("pub")), EnumKind::Simple(text("str"))],
    };
    let code = RustGenerator().gen_enum(&plain);
    assert!(!code.contains("pub fn value(&self) -> &'static str"));
    let mut valued = plain.clone();
    valued.variants.push(error_case("Sent", "limit:min", None));
    let code = RustGenerator().gen_enum(&valued);
    assert!(code.contains("pub fn value(&self) -> &'static str"));
    assert_eq!(code.matches("pub fn value(&self) -> &'static str").count(), 1);
}

#[test]
fn login_request_checks_the_length_of_the_password_in_rust() {
    let errors = Enum {
        id: text("LoginError"),
        description: None,
        variants: vec![
            error_case("TooShort", "limit:min", Some("password")),
            error_case("TooLong", "limit:max", Some("password")),
        ],
    };
    let request = Class {
        id: text("LoginRequest"),
        description: None,
        immutable: None,
        error: Some(text("LoginError")),
        properties: vec![(
            text("password"),
            Property::Mapping(vec![
                (PropertyKey::Type, text("string")),
                (PropertyKey::Limit, text("8...32")),
            ]),
        )],
    };
    let (code, imports) = RustGenerator().gen_class(&request, Some(&errors));
    let expected = [
        "pub struct LoginRequest {    pub password: String,}\n",
        "\nimpl LoginRequest {\n",
        "    fn new(password: String) -> Self {\n        Self { password }\n    }\n",
        "    pub fn build(password: String) -> Result<Self, LoginError> {\n",
        "        if (password.len() as isize) < 8 {\n            return Err(LoginError::TooShort);\n        }\n",
        "        if (password.len() as isize) > 32 {\n            return Err(LoginError::TooLong);\n        }\n",
        "        Ok(Self::new(password))\n    }\n",
        "}\n",
    ]
    .concat();
    assert_eq!(code, expected);
    assert!(imports.is_empty());
    let short = code.find("< 8").unwrap();
    let long = code.find("> 32").unwrap();
    assert!(short < long);
}
