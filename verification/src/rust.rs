//! The Rust backend: enumerations as Rust enums, with a method that gives
//! each case its string where the enumeration has values; classes as structs
//! with one field for each property, a constructor, a factory that checks
//! the bounds where the class has a validator, and accessors for the private
//! fields.
use crate::number::{int_text, int_to_string};
use crate::text::{
    chars_of, has_occurrence, join, join_with, lemma_occurs_between, lemma_separated, occurs_at,
    push_text, same_text, spells, without, Text,
};
use crate::udl::class::{get_entry, Class, ClassView, Property, PropertyKey, PropertyView};
use crate::udl::document::{DocumentView, UDL};
use crate::udl::enums::{
    Enum, EnumKind, EnumKindView, EnumVariantValue, EnumVariantValueView, EnumView,
};
use crate::udl::generator::{
    append_doc_comment, assembled, blocks_text, collected_imports, doc_comment, error_enum_of,
    find_error_enum, lemma_blocks_step, optional_enum, LangGenerator,
};
use crate::udl::utils::{
    base_name, is_nullable_type, lemma_base_name_idempotent, lemma_base_name_unmarked, nullable,
    resolve_error_variant, resolved_variant,
};
use crate::udl::validate::{
    all_readable, bounds_of, class_accepted, class_defect, entry_bounds, max_tag, min_tag,
    readable_entries, readable_property,
};
use vstd::prelude::*;
use vstd::string::*;

verus! {

/// The Rust backend.
pub struct RustGenerator();

/// The Rust name of a primitive type of the document; `None` for any other
/// name.
pub open spec fn rust_primitive(base: Text) -> Option<Text> {
    if base == "bool"@ {
        Some("bool"@)
    } else if base == "int"@ || base == "int32"@ {
        Some("i32"@)
    } else if base == "float"@ || base == "float64"@ {
        Some("f64"@)
    } else if base == "string"@ {
        Some("String"@)
    } else if base == "isize"@ {
        Some("isize"@)
    } else if base == "int8"@ {
        Some("i8"@)
    } else if base == "int16"@ {
        Some("i16"@)
    } else if base == "int64"@ {
        Some("i64"@)
    } else if base == "usize"@ {
        Some("usize"@)
    } else if base == "uint8"@ {
        Some("u8"@)
    } else if base == "uint16"@ {
        Some("u16"@)
    } else if base == "uint32"@ {
        Some("u32"@)
    } else if base == "uint64"@ {
        Some("u64"@)
    } else if base == "float32"@ {
        Some("f32"@)
    } else {
        None
    }
}

/// The Rust name of the type with the base name `base`: that of the
/// primitive type, or `base` itself, which then names a class or an
/// enumeration of the document.
pub open spec fn rust_type_name(base: Text) -> Text {
    match rust_primitive(base) {
        Some(name) => name,
        None => base,
    }
}

/// The Rust type that the type string `raw` names: a nullable type is an
/// `Option` of its base type.
pub open spec fn rust_type_text(raw: Text) -> Text {
    if nullable(raw) {
        "Option<"@ + rust_type_name(base_name(raw)) + ">"@
    } else {
        rust_type_name(base_name(raw))
    }
}

/// A type string with the nullable mark is nullable for Rust: its type is
/// an `Option`.
pub proof fn lemma_marked_type_is_optional(raw: Text)
    requires
        raw.contains('?'),
    ensures
        rust_type_text(raw) == "Option<"@ + rust_type_name(base_name(raw)) + ">"@,
{
}

/// The Rust type of a nullable type string is the `Option` of the type of
/// its base name, that of any other type string is the type of its base
/// name: the marks of the string bear on nothing else. It holds wherever a
/// second stripping changes nothing, that is, where the base name holds no
/// enum mark.
pub proof fn lemma_type_of_base_name(raw: Text)
    requires
        !has_occurrence(base_name(raw), "$enum::"@),
    ensures
        rust_type_text(base_name(raw)) == rust_type_name(base_name(raw)),
        rust_type_text(raw) == if nullable(raw) {
            "Option<"@ + rust_type_text(base_name(raw)) + ">"@
        } else {
            rust_type_text(base_name(raw))
        },
{
    lemma_base_name_idempotent(raw);
    lemma_base_name_unmarked(raw);
}

/// The type string `raw` without its marks.
pub fn clean_type_name(raw: &str) -> (name: String)
    ensures
        name@ == base_name(raw@),
{
    let unmarked = without(raw, "?");
    let required = without(unmarked.as_str(), "^");
    without(required.as_str(), "$enum::")
}

/// The Rust name of a primitive type of the document.
fn primitive_type(base: &str) -> (r: Option<&'static str>)
    ensures
        r.deep_view() == rust_primitive(base@),
{
    let chars = chars_of(base);
    if spells(&chars, "bool") {
        Some("bool")
    } else if spells(&chars, "int") || spells(&chars, "int32") {
        Some("i32")
    } else if spells(&chars, "float") || spells(&chars, "float64") {
        Some("f64")
    } else if spells(&chars, "string") {
        Some("String")
    } else if spells(&chars, "isize") {
        Some("isize")
    } else if spells(&chars, "int8") {
        Some("i8")
    } else if spells(&chars, "int16") {
        Some("i16")
    } else if spells(&chars, "int64") {
        Some("i64")
    } else if spells(&chars, "usize") {
        Some("usize")
    } else if spells(&chars, "uint8") {
        Some("u8")
    } else if spells(&chars, "uint16") {
        Some("u16")
    } else if spells(&chars, "uint32") {
        Some("u32")
    } else if spells(&chars, "uint64") {
        Some("u64")
    } else if spells(&chars, "float32") {
        Some("f32")
    } else {
        None
    }
}

/// The Rust name of the base type of the type string `raw`.
pub fn type_name_of(raw: &str) -> (r: String)
    ensures
        r@ == rust_type_name(base_name(raw@)),
{
    let name = clean_type_name(raw);
    match primitive_type(name.as_str()) {
        Some(primitive) => primitive.to_owned(),
        None => name,
    }
}

/// The Rust type that the type string `raw` names.
pub fn process_type(raw: &str) -> (r: String)
    ensures
        r@ == rust_type_text(raw@),
{
    let mapped = type_name_of(raw);
    if is_nullable_type(raw) {
        let mut out = "Option<".to_owned();
        out.append(mapped.as_str());
        out.append(">");
        out
    } else {
        mapped
    }
}

/// One case of a Rust enum: the name of the variant and a comma, below the
/// description of a structured variant.
pub open spec fn rust_case_text(kind: EnumKindView) -> Text {
    match kind {
        EnumKindView::Simple(name) => name + ","@,
        EnumKindView::Complex(variant) => doc_comment(variant.description) + variant.id + ","@,
    }
}

/// The cases of a Rust enum, one after another.
pub open spec fn rust_cases_text(variants: Seq<EnumKindView>) -> Text
    decreases variants.len(),
{
    if variants.len() == 0 {
        Seq::empty()
    } else {
        rust_cases_text(variants.drop_last()) + rust_case_text(variants.last())
    }
}

/// The string that a case of an enum with values carries: the string of
/// a structured variant with one, else the empty string.
pub open spec fn payload(kind: EnumKindView) -> Text {
    match kind {
        EnumKindView::Complex(variant) => match variant.value {
            EnumVariantValueView::Single(text) => text,
            EnumVariantValueView::Multiple(_) => Seq::empty(),
        },
        EnumKindView::Simple(_) => Seq::empty(),
    }
}

/// The arm that gives the case `kind` of the enum `id` its string: the
/// path of the case, an arrow and the string as a literal.
pub open spec fn rust_value_arm(id: Text, kind: EnumKindView) -> Text {
    "            "@ + id + "::"@ + kind.name() + " => \""@ + payload(kind) + "\",\n"@
}

/// The arms of the cases, one after another.
pub open spec fn rust_value_arms(id: Text, variants: Seq<EnumKindView>) -> Text
    decreases variants.len(),
{
    if variants.len() == 0 {
        Seq::empty()
    } else {
        rust_value_arms(id, variants.drop_last()) + rust_value_arm(id, variants.last())
    }
}

/// What follows a Rust enum with values: the method `value`, which gives
/// every case the string that it carries.
pub open spec fn rust_value_members(id: Text, variants: Seq<EnumKindView>) -> Text {
    "\n\nimpl "@ + id + " {\n    "@ + value_method() + " {\n        match self {\n"@
        + rust_value_arms(id, variants) + "        }\n    }\n}"@
}

/// The header of the method that gives a case its string.
pub open spec fn value_method() -> Text {
    "pub fn value(&self) -> &'static str"@
}

/// The Rust source text of an enumeration. Where any variant is a
/// structured one, the whole enum has values: the value members follow
/// it, and every case, a bare name too, carries a string there.
pub open spec fn rust_enum_text(enumm: EnumView) -> Text {
    doc_comment(enumm.description) + "enum "@ + enumm.id + " {"@ + rust_cases_text(enumm.variants)
        + "}"@ + (if enumm.has_complex() {
        rust_value_members(enumm.id, enumm.variants)
    } else {
        Seq::empty()
    })
}

/// Appends the arm of one case of the enum `id` to `code`.
pub fn append_value_arm(code: &mut String, id: &String, kind: &EnumKind)
    ensures
        final(code)@ == old(code)@ + rust_value_arm(id@, kind@),
{
    code.append("            ");
    code.append(id.as_str());
    code.append("::");
    match kind {
        EnumKind::Simple(name) => {
            code.append(name.as_str());
            code.append(" => \"");
        },
        EnumKind::Complex(variant) => {
            code.append(variant.id.as_str());
            code.append(" => \"");
            match &variant.value {
                EnumVariantValue::Single(text) => {
                    code.append(text.as_str());
                },
                EnumVariantValue::Multiple(_) => {},
            }
        },
    }
    code.append("\",\n");
    assert(code@ =~= old(code)@ + rust_value_arm(id@, kind@));
}

/// Appends the value members of `enumm` to `code`.
pub fn append_value_members(code: &mut String, enumm: &Enum)
    ensures
        final(code)@ == old(code)@ + rust_value_members(enumm@.id, enumm@.variants),
{
    code.append("\n\nimpl ");
    code.append(enumm.id.as_str());
    code.append(" {\n    ");
    code.append("pub fn value(&self) -> &'static str");
    code.append(" {\n        match self {\n");
    let ghost head = code@;
    let mut i: usize = 0;
    assert(enumm@.variants.take(0) =~= Seq::empty());
    assert(code@ =~= head + rust_value_arms(enumm@.id, enumm@.variants.take(0)));
    while i < enumm.variants.len()
        invariant
            i <= enumm.variants.len(),
            code@ == head + rust_value_arms(enumm@.id, enumm@.variants.take(i as int)),
        decreases enumm.variants.len() - i,
    {
        proof {
            let next = enumm@.variants.take(i + 1);
            assert(next.drop_last() =~= enumm@.variants.take(i as int));
            assert(next.last() == enumm.variants[i as int]@);
        }
        append_value_arm(code, &enumm.id, &enumm.variants[i]);
        assert(code@ =~= head + rust_value_arms(enumm@.id, enumm@.variants.take(i + 1)));
        i += 1;
    }
    assert(enumm@.variants.take(enumm.variants.len() as int) =~= enumm@.variants);
    code.append("        }\n    }\n}");
    assert(code@ =~= old(code)@ + rust_value_members(enumm@.id, enumm@.variants));
}

/// Where any variant of an enumeration is a structured one, the Rust enum
/// has values, whatever its other variants are: the value members follow
/// it, with an arm for every case. Where every variant is a bare name,
/// nothing follows the enum.
pub proof fn lemma_enum_is_plain_or_valued(enumm: EnumView)
    ensures
        enumm.has_complex() ==> rust_enum_text(enumm) == doc_comment(enumm.description) + "enum "@
            + enumm.id + " {"@ + rust_cases_text(enumm.variants) + "}"@ + rust_value_members(
            enumm.id,
            enumm.variants,
        ),
        !enumm.has_complex() ==> rust_enum_text(enumm) == doc_comment(enumm.description) + "enum "@
            + enumm.id + " {"@ + rust_cases_text(enumm.variants) + "}"@,
{
    if !enumm.has_complex() {
        assert(rust_enum_text(enumm) =~= doc_comment(enumm.description) + "enum "@ + enumm.id
            + " {"@ + rust_cases_text(enumm.variants) + "}"@);
    }
}

/// What the header of the value method is made of.
proof fn lemma_value_method_chars()
    ensures
        value_method().len() == 35,
        value_method()[0] == 'p',
        value_method().last() == 'r',
        !value_method().contains('/'),
        !value_method().contains('\n'),
        !value_method().contains('m'),
        !value_method().contains('{'),
        !value_method().contains(','),
        !value_method().contains('}'),
{
    reveal_strlit("pub fn value(&self) -> &'static str");
}

/// A text shorter than the header of the value method does not hold it.
proof fn lemma_short_text(s: Text)
    requires
        s.len() < 35,
    ensures
        !has_occurrence(s, value_method()),
{
    lemma_value_method_chars();
    assert forall|at: int| !occurs_at(s, value_method(), at) by {}
}

/// The comment of a description that does not hold the header of the
/// value method does not hold it either.
proof fn lemma_comment_without_value_method(description: Option<Text>)
    requires
        description matches Some(text) ==> !has_occurrence(text, value_method()),
    ensures
        !has_occurrence(doc_comment(description), value_method()),
{
    lemma_value_method_chars();
    lemma_short_text(Seq::empty());
    match description {
        Some(text) => {
            reveal_strlit("/// ");
            reveal_strlit("\n");
            let open = Seq::<char>::empty() + "/// "@ + text;
            lemma_separated(Seq::empty(), "/// "@, text, value_method(), 0);
            lemma_separated(open, "\n"@, Seq::empty(), value_method(), 0);
            assert(open + "\n"@ + Seq::<char>::empty() =~= doc_comment(description));
        },
        None => {},
    }
}

/// Cases of bare names that do not hold the header of the value method do
/// not hold it either, between texts that do not hold it, where a
/// separator stands before the cases.
proof fn lemma_cases_without_value_method(
    pre: Text,
    sep: Text,
    k: int,
    variants: Seq<EnumKindView>,
    post: Text,
)
    requires
        !has_occurrence(pre, value_method()),
        !has_occurrence(post, value_method()),
        !sep.contains('p'),
        !sep.contains('r'),
        0 <= k < sep.len(),
        !value_method().contains(sep[k]),
        forall|i: int| 0 <= i < variants.len() ==> !(#[trigger] variants[i] is Complex),
        forall|i: int|
            0 <= i < variants.len() ==> !has_occurrence(
                (#[trigger] variants[i]).name(),
                value_method(),
            ),
    ensures
        !has_occurrence(pre + sep + rust_cases_text(variants) + post, value_method()),
    decreases variants.len(),
{
    lemma_value_method_chars();
    if variants.len() == 0 {
        lemma_separated(pre, sep, post, value_method(), k);
        assert(pre + sep + rust_cases_text(variants) + post =~= pre + sep + post);
    } else {
        let n = variants.len() - 1;
        let name = variants[n].name();
        assert(!(variants[n] is Complex));
        assert(!has_occurrence(name, value_method()));
        assert forall|i: int| 0 <= i < n implies !(#[trigger] variants.drop_last()[i] is Complex)
            && !has_occurrence(variants.drop_last()[i].name(), value_method()) by {
            assert(variants.drop_last()[i] == variants[i]);
        }
        lemma_cases_without_value_method(pre, sep, k, variants.drop_last(), name);
        let before = pre + sep + rust_cases_text(variants.drop_last()) + name;
        reveal_strlit(",");
        lemma_separated(before, ","@, post, value_method(), 0);
        assert(pre + sep + rust_cases_text(variants) + post =~= before + ","@ + post);
    }
}

/// Where the names of the variants, the name of the enumeration and its
/// description do not hold the header of the value method, the text of the
/// Rust enum holds that header exactly when some variant is a structured
/// one.
pub proof fn lemma_value_method_marks_valued_enum(enumm: EnumView)
    requires
        !has_occurrence(enumm.id, value_method()),
        enumm.description matches Some(text) ==> !has_occurrence(text, value_method()),
        forall|i: int|
            0 <= i < enumm.variants.len() ==> !has_occurrence(
                (#[trigger] enumm.variants[i]).name(),
                value_method(),
            ),
    ensures
        has_occurrence(rust_enum_text(enumm), value_method()) <==> enumm.has_complex(),
{
    let head = doc_comment(enumm.description) + "enum "@ + enumm.id;
    let cases = rust_cases_text(enumm.variants);
    if enumm.has_complex() {
        let opened = head + " {"@ + cases + "}"@ + "\n\nimpl "@ + enumm.id + " {\n    "@;
        let rest = " {\n        match self {\n"@ + rust_value_arms(enumm.id, enumm.variants)
            + "        }\n    }\n}"@;
        lemma_occurs_between(opened, value_method(), rest);
        assert(opened + value_method() + rest =~= rust_enum_text(enumm));
    } else {
        lemma_value_method_chars();
        lemma_comment_without_value_method(enumm.description);
        reveal_strlit("enum ");
        reveal_strlit(" {");
        reveal_strlit("}");
        lemma_separated(doc_comment(enumm.description), "enum "@, enumm.id, value_method(), 3);
        lemma_short_text("}"@);
        lemma_cases_without_value_method(head, " {"@, 1, enumm.variants, "}"@);
        assert(head + " {"@ + cases + "}"@ =~= rust_enum_text(enumm));
    }
}

/// One field of a Rust struct: public, unless the property is private;
/// below the description of the property.
pub open spec fn rust_field_text(name: Text, property: PropertyView) -> Text {
    match property {
        PropertyView::Type(raw) => "    pub "@ + name + ": "@ + rust_type_text(raw) + ","@,
        PropertyView::Mapping(_) => doc_comment(property.description()) + "    "@ + (
        if property.is_private() {
            Seq::empty()
        } else {
            "pub"@
        }) + " "@ + name + ": "@ + rust_type_text(property.raw_type()->0) + ","@,
    }
}

/// The fields of a Rust struct, one after another.
pub open spec fn rust_fields_text(properties: Seq<(Text, PropertyView)>) -> Text
    decreases properties.len(),
{
    if properties.len() == 0 {
        Seq::empty()
    } else {
        rust_fields_text(properties.drop_last()) + rust_field_text(
            properties.last().0,
            properties.last().1,
        )
    }
}

/// The classes that the Rust backend renders.
pub open spec fn rust_accepts(class: ClassView, error_enum: Option<EnumView>) -> bool {
    class_accepted(class, error_enum)
}

/// The Rust types whose values are compared with a bound as they are; of
/// every other type the length is compared.
pub open spec fn is_rust_number(base: Text) -> bool {
    base == "i8"@ || base == "i16"@ || base == "i32"@ || base == "i64"@ || base == "isize"@ || base
        == "u8"@ || base == "u16"@ || base == "u32"@ || base == "u64"@ || base == "usize"@ || base
        == "f32"@ || base == "f64"@
}

/// What the Rust backend reads off one property for the methods of the
/// struct: its name, the Rust name of its base type, its Rust type, and
/// whether it is nullable and private.
pub struct RustField {
    pub name: String,
    pub base: String,
    pub ty: String,
    pub nullable: bool,
    pub private: bool,
}

/// The model of a [`RustField`].
pub struct RustFieldView {
    pub name: Text,
    pub base: Text,
    pub ty: Text,
    pub nullable: bool,
    pub private: bool,
}

impl View for RustField {
    type V = RustFieldView;

    open spec fn view(&self) -> RustFieldView {
        RustFieldView {
            name: self.name@,
            base: self.base@,
            ty: self.ty@,
            nullable: self.nullable,
            private: self.private,
        }
    }
}

/// What the Rust backend reads off the property `name` with the
/// declaration `property`.
pub open spec fn rust_field(name: Text, property: PropertyView) -> RustFieldView {
    RustFieldView {
        name: name,
        base: rust_type_name(base_name(property.raw_type()->0)),
        ty: rust_type_text(property.raw_type()->0),
        nullable: nullable(property.raw_type()->0),
        private: property.is_private(),
    }
}

/// What the Rust backend reads off each property, in their order.
pub open spec fn rust_fields(properties: Seq<(Text, PropertyView)>) -> Seq<RustFieldView> {
    Seq::new(properties.len(), |i: int| rust_field(properties[i].0, properties[i].1))
}

/// The models of the fields in `fields`.
pub open spec fn rust_field_views(fields: Seq<RustField>) -> Seq<RustFieldView> {
    fields.map_values(|f: RustField| f@)
}

impl RustFieldView {
    /// The parameter that takes the value of the field.
    pub open spec fn parameter(self) -> Text {
        self.name + ": "@ + self.ty
    }

    /// The method that exposes a private field under its name.
    pub open spec fn accessor(self) -> Text {
        "    pub fn "@ + self.name + "(&self) -> &"@ + self.ty + " {\n        &self."@ + self.name
            + "\n    }\n"@
    }

    /// What a check compares with `bound`: the value of a number, else the
    /// length of the value, with `bound` in place of the length of a value
    /// that is absent.
    pub open spec fn operand(self, bound: int) -> Text {
        if is_rust_number(self.base) {
            self.name
        } else if self.nullable {
            self.name + ".as_ref().map_or("@ + int_text(bound) + ", |v| v.len() as isize)"@
        } else {
            "("@ + self.name + ".len() as isize)"@
        }
    }
}

/// The parameters of the constructor and of the factory, one for each
/// field.
pub open spec fn rust_parameters(fields: Seq<RustFieldView>) -> Seq<Text> {
    Seq::new(fields.len(), |i: int| fields[i].parameter())
}

/// The names of the fields.
pub open spec fn rust_names(fields: Seq<RustFieldView>) -> Seq<Text> {
    Seq::new(fields.len(), |i: int| fields[i].name)
}

/// The accessors of the private fields, one after another.
pub open spec fn rust_accessors_text(fields: Seq<RustFieldView>) -> Text
    decreases fields.len(),
{
    if fields.len() == 0 {
        Seq::empty()
    } else if fields.last().private {
        rust_accessors_text(fields.drop_last()) + fields.last().accessor()
    } else {
        rust_accessors_text(fields.drop_last())
    }
}

/// The constructor of a struct: it takes the value of every field; it is
/// private where the struct is built through its factory.
pub open spec fn rust_constructor_text(fallible: bool, fields: Seq<RustFieldView>) -> Text {
    "    "@ + (if fallible {
        Seq::empty()
    } else {
        "pub "@
    }) + "fn new("@ + join_with(rust_parameters(fields), ", "@) + ") -> Self {\n        Self { "@
        + join_with(rust_names(fields), ", "@) + " }\n    }\n"@
}

/// The check of one bound: a test that returns the variant `variant` of
/// the enumeration `errors` as an error.
pub open spec fn rust_check_text(
    field: RustFieldView,
    errors: Text,
    variant: Text,
    is_min: bool,
    bound: int,
) -> Text {
    "        if "@ + field.operand(bound) + " "@ + (if is_min {
        "<"@
    } else {
        ">"@
    }) + " "@ + int_text(bound) + " {\n            return Err("@ + errors + "::"@ + variant
        + ");\n        }\n"@
}

/// The check of one bound of the property `property`: where the error
/// enumeration has a variant for it, the check that returns that variant;
/// else nothing.
pub open spec fn rust_bound_check(
    field: RustFieldView,
    property: Text,
    errors: EnumView,
    is_min: bool,
    bound: int,
) -> Text {
    match resolved_variant(
        errors,
        if is_min {
            min_tag()
        } else {
            max_tag()
        },
        property,
    ) {
        Some(variant) => rust_check_text(field, errors.id, variant, is_min, bound),
        None => Seq::empty(),
    }
}

/// The checks of the entry `key: value`: that of its minimum, then that of
/// its maximum, each where the bound is present.
pub open spec fn rust_entry_checks(
    field: RustFieldView,
    property: Text,
    errors: EnumView,
    key: PropertyKey,
    value: Text,
) -> Text {
    match entry_bounds(key, value) {
        Some(bounds) => (if bounds.0 != -1 {
            rust_bound_check(field, property, errors, true, bounds.0)
        } else {
            Seq::empty()
        }) + (if bounds.1 != -1 {
            rust_bound_check(field, property, errors, false, bounds.1)
        } else {
            Seq::empty()
        }),
        None => Seq::empty(),
    }
}

/// The checks of the entries of one property, in their order.
pub open spec fn rust_entries_checks(
    field: RustFieldView,
    property: Text,
    errors: EnumView,
    entries: Seq<(PropertyKey, Text)>,
) -> Text
    decreases entries.len(),
{
    if entries.len() == 0 {
        Seq::empty()
    } else {
        rust_entries_checks(field, property, errors, entries.drop_last()) + rust_entry_checks(
            field,
            property,
            errors,
            entries.last().0,
            entries.last().1,
        )
    }
}

/// The checks of one property: none for a bare type.
pub open spec fn rust_property_checks(name: Text, property: PropertyView, errors: EnumView) -> Text {
    match property {
        PropertyView::Type(_) => Seq::empty(),
        PropertyView::Mapping(entries) => rust_entries_checks(
            rust_field(name, property),
            name,
            errors,
            entries,
        ),
    }
}

/// The checks of the properties of a class, in their order.
pub open spec fn rust_checks_text(properties: Seq<(Text, PropertyView)>, errors: EnumView) -> Text
    decreases properties.len(),
{
    if properties.len() == 0 {
        Seq::empty()
    } else {
        rust_checks_text(properties.drop_last(), errors) + rust_property_checks(
            properties.last().0,
            properties.last().1,
            errors,
        )
    }
}

/// The factory of a struct: it takes the value of each field, runs the
/// checks in the order of the properties, and hands the values to the
/// private constructor where all checks pass.
pub open spec fn rust_factory_text(class: ClassView, errors: EnumView) -> Text {
    "    pub fn build("@ + join_with(rust_parameters(rust_fields(class.properties)), ", "@)
        + ") -> Result<Self, "@ + class.error->0 + "> {\n"@ + rust_checks_text(
        class.properties,
        errors,
    ) + "        Ok(Self::new("@ + join_with(rust_names(rust_fields(class.properties)), ", "@)
        + "))\n    }\n"@
}

/// The methods of a struct: its constructor, its factory where the class
/// has a validator, and the accessors of its private fields.
pub open spec fn rust_methods_text(class: ClassView, error_enum: Option<EnumView>) -> Text {
    "\nimpl "@ + class.id + " {\n"@ + rust_constructor_text(
        class.is_fallible(),
        rust_fields(class.properties),
    ) + (if class.is_fallible() {
        rust_factory_text(class, error_enum->0)
    } else {
        Seq::empty()
    }) + rust_accessors_text(rust_fields(class.properties)) + "}\n"@
}

/// The Rust source text of a class: the struct with its fields, and its
/// methods.
pub open spec fn rust_class_text(class: ClassView, error_enum: Option<EnumView>) -> Text {
    doc_comment(class.description) + "pub struct "@ + class.id + " {"@ + rust_fields_text(
        class.properties,
    ) + "}\n"@ + rust_methods_text(class, error_enum)
}

/// The Rust source texts of the enumerations of a document.
pub open spec fn rust_enum_texts(document: DocumentView) -> Seq<Text> {
    Seq::new(document.enums.len(), |i: int| rust_enum_text(document.enums[i]))
}

/// The Rust source texts of the classes of a document.
pub open spec fn rust_class_texts(document: DocumentView) -> Seq<Text> {
    Seq::new(
        document.models.len(),
        |i: int|
            rust_class_text(document.models[i], error_enum_of(document.enums, document.models[i])),
    )
}

/// The imports that each class of a document needs in Rust: none.
pub open spec fn rust_import_lists(document: DocumentView) -> Seq<Seq<Text>> {
    Seq::new(document.models.len(), |i: int| Seq::empty())
}

/// The documents that the Rust backend renders: those of which it renders
/// every class.
pub open spec fn rust_accepts_document(document: DocumentView) -> bool {
    forall|i: int|
        0 <= i < document.models.len() ==> rust_accepts(
            #[trigger] document.models[i],
            error_enum_of(document.enums, document.models[i]),
        )
}

/// The Rust source text of a document: its enumerations, then its
/// classes; no import follows them.
pub open spec fn rust_document_text(document: DocumentView) -> Text {
    assembled(rust_enum_texts(document), rust_class_texts(document), rust_import_lists(document))
}

/// Lists that hold no import give no import.
proof fn lemma_no_imports(lists: Seq<Seq<Text>>)
    requires
        forall|i: int| 0 <= i < lists.len() ==> (#[trigger] lists[i]).len() == 0,
    ensures
        collected_imports(lists) == Seq::<Text>::empty(),
    decreases lists.len(),
{
    if lists.len() > 0 {
        assert(lists[lists.len() - 1].len() == 0);
        lemma_no_imports(lists.drop_last());
    }
}

/// Appends one field of a Rust struct to `code`.
fn append_field(code: &mut String, name: &String, property: &Property)
    requires
        property@.raw_type() is Some,
    ensures
        final(code)@ == old(code)@ + rust_field_text(name@, property@),
{
    match property {
        Property::Type(raw) => {
            code.append("    pub ");
            code.append(name.as_str());
            code.append(": ");
            code.append(process_type(raw.as_str()).as_str());
            code.append(",");
            assert(code@ =~= old(code)@ + rust_field_text(name@, property@));
        },
        Property::Mapping(entries) => {
            append_doc_comment(code, get_entry(entries, PropertyKey::Description));
            let private = match get_entry(entries, PropertyKey::Private) {
                Some(value) => same_text(value.as_str(), "true"),
                None => false,
            };
            code.append("    ");
            if !private {
                code.append("pub");
            }
            code.append(" ");
            code.append(name.as_str());
            code.append(": ");
            match get_entry(entries, PropertyKey::Type) {
                Some(raw) => {
                    code.append(process_type(raw.as_str()).as_str());
                },
                None => {},
            }
            code.append(",");
            assert(code@ =~= old(code)@ + rust_field_text(name@, property@));
        },
    }
}

/// Appends the fields of the struct of `class` to `code`.
pub fn append_fields(code: &mut String, class: &Class)
    requires
        class@.well_formed(),
    ensures
        final(code)@ == old(code)@ + rust_fields_text(class@.properties),
{
    let ghost properties = class@.properties;
    let mut i: usize = 0;
    assert(properties.take(0) =~= Seq::empty());
    assert(code@ =~= old(code)@ + rust_fields_text(properties.take(0)));
    while i < class.properties.len()
        invariant
            i <= class.properties.len(),
            properties == class@.properties,
            class@.well_formed(),
            code@ == old(code)@ + rust_fields_text(properties.take(i as int)),
        decreases class.properties.len() - i,
    {
        proof {
            let next = properties.take(i + 1);
            assert(next.drop_last() =~= properties.take(i as int));
            assert(next.last() == properties[i as int]);
            assert(properties[i as int].1.well_formed());
        }
        append_field(code, &class.properties[i].0, &class.properties[i].1);
        assert(code@ =~= old(code)@ + rust_fields_text(properties.take(i + 1)));
        i += 1;
    }
    assert(properties.take(class.properties.len() as int) =~= properties);
}

/// What the Rust backend reads off the property `name` with the
/// declaration `property`.
pub fn field_of(name: &String, property: &Property) -> (field: RustField)
    requires
        property@.raw_type() is Some,
    ensures
        field@ == rust_field(name@, property@),
{
    let (base, ty, nullable) = match property.raw_type() {
        Some(raw) => (
            type_name_of(raw.as_str()),
            process_type(raw.as_str()),
            is_nullable_type(raw.as_str()),
        ),
        None => (String::new(), String::new(), false),
    };
    let private = match property {
        Property::Type(_) => false,
        Property::Mapping(entries) => match get_entry(entries, PropertyKey::Private) {
            Some(value) => same_text(value.as_str(), "true"),
            None => false,
        },
    };
    RustField { name: name.clone(), base, ty, nullable, private }
}

/// What the Rust backend reads off each property of `class`.
pub fn fields_of(class: &Class) -> (fields: Vec<RustField>)
    requires
        class@.well_formed(),
    ensures
        rust_field_views(fields@) == rust_fields(class@.properties),
{
    let mut fields: Vec<RustField> = Vec::new();
    let mut i: usize = 0;
    while i < class.properties.len()
        invariant
            i <= class.properties.len(),
            class@.well_formed(),
            fields.len() == i,
            forall|k: int|
                0 <= k < i ==> (#[trigger] fields[k])@ == rust_field(
                    class@.properties[k].0,
                    class@.properties[k].1,
                ),
        decreases class.properties.len() - i,
    {
        assert(class@.properties[i as int].1.well_formed());
        let field = field_of(&class.properties[i].0, &class.properties[i].1);
        fields.push(field);
        i += 1;
    }
    assert(rust_field_views(fields@) =~= rust_fields(class@.properties));
    fields
}

/// The parameters that take the values of `fields`, with a comma between
/// each two.
pub fn parameters_of(fields: &Vec<RustField>) -> (r: String)
    ensures
        r@ == join_with(rust_parameters(rust_field_views(fields@)), ", "@),
{
    let ghost views = rust_field_views(fields@);
    let mut parameters: Vec<String> = Vec::new();
    let mut i: usize = 0;
    assert(parameters.deep_view() =~= rust_parameters(views.take(0)));
    while i < fields.len()
        invariant
            i <= fields.len(),
            views == rust_field_views(fields@),
            parameters.deep_view() == rust_parameters(views.take(i as int)),
        decreases fields.len() - i,
    {
        proof {
            let next = views.take(i + 1);
            assert(next.last() == fields[i as int]@);
            assert(rust_parameters(next) =~= rust_parameters(views.take(i as int)).push(
                fields[i as int]@.parameter(),
            ));
        }
        let field = &fields[i];
        let mut parameter = field.name.clone();
        parameter.append(": ");
        parameter.append(field.ty.as_str());
        assert(parameter@ =~= field@.parameter());
        push_text(&mut parameters, parameter);
        i += 1;
    }
    assert(views.take(fields.len() as int) =~= views);
    join(&parameters, ", ")
}

/// The names of `fields`, with a comma between each two.
pub fn names_of(fields: &Vec<RustField>) -> (r: String)
    ensures
        r@ == join_with(rust_names(rust_field_views(fields@)), ", "@),
{
    let ghost views = rust_field_views(fields@);
    let mut names: Vec<String> = Vec::new();
    let mut i: usize = 0;
    assert(names.deep_view() =~= rust_names(views.take(0)));
    while i < fields.len()
        invariant
            i <= fields.len(),
            views == rust_field_views(fields@),
            names.deep_view() == rust_names(views.take(i as int)),
        decreases fields.len() - i,
    {
        proof {
            let next = views.take(i + 1);
            assert(next.last() == fields[i as int]@);
            assert(rust_names(next) =~= rust_names(views.take(i as int)).push(
                fields[i as int]@.name,
            ));
        }
        push_text(&mut names, fields[i].name.clone());
        i += 1;
    }
    assert(views.take(fields.len() as int) =~= views);
    join(&names, ", ")
}

/// Appends the constructor of a struct with the fields `fields` to `code`.
pub fn append_constructor(code: &mut String, fallible: bool, fields: &Vec<RustField>)
    ensures
        final(code)@ == old(code)@ + rust_constructor_text(fallible, rust_field_views(fields@)),
{
    code.append("    ");
    if !fallible {
        code.append("pub ");
    }
    code.append("fn new(");
    code.append(parameters_of(fields).as_str());
    code.append(") -> Self {\n        Self { ");
    code.append(names_of(fields).as_str());
    code.append(" }\n    }\n");
    assert(code@ =~= old(code)@ + rust_constructor_text(fallible, rust_field_views(fields@)));
}

/// Appends the accessors of the private fields among `fields` to `code`.
pub fn append_accessors(code: &mut String, fields: &Vec<RustField>)
    ensures
        final(code)@ == old(code)@ + rust_accessors_text(rust_field_views(fields@)),
{
    let ghost views = rust_field_views(fields@);
    let mut i: usize = 0;
    assert(views.take(0) =~= Seq::empty());
    assert(code@ =~= old(code)@ + rust_accessors_text(views.take(0)));
    while i < fields.len()
        invariant
            i <= fields.len(),
            views == rust_field_views(fields@),
            code@ == old(code)@ + rust_accessors_text(views.take(i as int)),
        decreases fields.len() - i,
    {
        proof {
            let next = views.take(i + 1);
            assert(next.drop_last() =~= views.take(i as int));
            assert(next.last() == fields[i as int]@);
        }
        let ghost before = code@;
        let field = &fields[i];
        if field.private {
            code.append("    pub fn ");
            code.append(field.name.as_str());
            code.append("(&self) -> &");
            code.append(field.ty.as_str());
            code.append(" {\n        &self.");
            code.append(field.name.as_str());
            code.append("\n    }\n");
            assert(code@ =~= before + field@.accessor());
        }
        assert(code@ =~= old(code)@ + rust_accessors_text(views.take(i + 1)));
        i += 1;
    }
    assert(views.take(fields.len() as int) =~= views);
}

/// Whether values of the Rust type `base` are compared with a bound as
/// they are.
pub fn is_number(base: &str) -> (r: bool)
    ensures
        r == is_rust_number(base@),
{
    let chars = chars_of(base);
    spells(&chars, "i8") || spells(&chars, "i16") || spells(&chars, "i32") || spells(&chars, "i64")
        || spells(&chars, "isize") || spells(&chars, "u8") || spells(&chars, "u16") || spells(
        &chars,
        "u32",
    ) || spells(&chars, "u64") || spells(&chars, "usize") || spells(&chars, "f32") || spells(
        &chars,
        "f64",
    )
}

/// What a check of `field` compares with `bound`.
pub fn operand_of(field: &RustField, bound: isize) -> (r: String)
    ensures
        r@ == field@.operand(bound as int),
{
    let mut out = String::new();
    if is_number(field.base.as_str()) {
        out.append(field.name.as_str());
    } else if field.nullable {
        out.append(field.name.as_str());
        out.append(".as_ref().map_or(");
        out.append(int_to_string(bound).as_str());
        out.append(", |v| v.len() as isize)");
    } else {
        out.append("(");
        out.append(field.name.as_str());
        out.append(".len() as isize)");
    }
    assert(out@ =~= field@.operand(bound as int));
    out
}

/// The check of one bound of `field`, which returns the variant `variant`
/// of `errors` as an error.
pub fn check_of(field: &RustField, errors: &String, variant: &str, is_min: bool, bound: isize) -> (r:
    String)
    ensures
        r@ == rust_check_text(field@, errors@, variant@, is_min, bound as int),
{
    let mut out = String::new();
    out.append("        if ");
    out.append(operand_of(field, bound).as_str());
    out.append(" ");
    if is_min {
        out.append("<");
    } else {
        out.append(">");
    }
    out.append(" ");
    out.append(int_to_string(bound).as_str());
    out.append(" {\n            return Err(");
    out.append(errors.as_str());
    out.append("::");
    out.append(variant);
    out.append(");\n        }\n");
    assert(out@ =~= rust_check_text(field@, errors@, variant@, is_min, bound as int));
    out
}

/// Appends the check of one bound to `code`.
pub fn append_bound_check(
    code: &mut String,
    field: &RustField,
    property: &String,
    errors: &Enum,
    is_min: bool,
    bound: isize,
)
    ensures
        final(code)@ == old(code)@ + rust_bound_check(
            field@,
            property@,
            errors@,
            is_min,
            bound as int,
        ),
{
    let tag = if is_min {
        "limit:min"
    } else {
        "limit:max"
    };
    match resolve_error_variant(errors, tag, property.as_str()) {
        Some(variant) => {
            let check = check_of(field, &errors.id, variant.as_str(), is_min, bound);
            code.append(check.as_str());
        },
        None => {
            assert(code@ =~= old(code)@ + Seq::<char>::empty());
        },
    }
}

/// Appends the checks of one property to `code`.
pub fn append_property_checks(
    code: &mut String,
    field: &RustField,
    name: &String,
    property: &Property,
    errors: &Enum,
)
    requires
        readable_property(property@),
        field@ == rust_field(name@, property@),
    ensures
        final(code)@ == old(code)@ + rust_property_checks(name@, property@, errors@),
{
    match property {
        Property::Type(_) => {
            assert(code@ =~= old(code)@ + rust_property_checks(name@, property@, errors@));
        },
        Property::Mapping(entries) => {
            let ghost model = entries@.map_values(|e: (PropertyKey, String)| (e.0, e.1@));
            let mut i: usize = 0;
            assert(model.take(0) =~= Seq::empty());
            assert(code@ =~= old(code)@ + rust_entries_checks(
                field@,
                name@,
                errors@,
                model.take(0),
            ));
            while i < entries.len()
                invariant
                    i <= entries.len(),
                    model == entries@.map_values(|e: (PropertyKey, String)| (e.0, e.1@)),
                    readable_entries(model),
                    code@ == old(code)@ + rust_entries_checks(
                        field@,
                        name@,
                        errors@,
                        model.take(i as int),
                    ),
                decreases entries.len() - i,
            {
                proof {
                    let next = model.take(i + 1);
                    assert(next.drop_last() =~= model.take(i as int));
                    assert(next.last() == model[i as int]);
                    assert(entry_bounds(model[i as int].0, model[i as int].1) is Some);
                }
                let ghost before = code@;
                match bounds_of(&entries[i].0, &entries[i].1) {
                    Some(bounds) => {
                        if bounds.0 != -1 {
                            append_bound_check(code, field, name, errors, true, bounds.0);
                        }
                        if bounds.1 != -1 {
                            append_bound_check(code, field, name, errors, false, bounds.1);
                        }
                        assert(code@ =~= before + rust_entry_checks(
                            field@,
                            name@,
                            errors@,
                            model[i as int].0,
                            model[i as int].1,
                        ));
                    },
                    None => {},
                }
                assert(code@ =~= old(code)@ + rust_entries_checks(
                    field@,
                    name@,
                    errors@,
                    model.take(i + 1),
                ));
                i += 1;
            }
            assert(model.take(entries.len() as int) =~= model);
        },
    }
}

/// Appends the checks of the properties of `class` to `code`.
pub fn append_checks(code: &mut String, class: &Class, fields: &Vec<RustField>, errors: &Enum)
    requires
        all_readable(class@),
        rust_field_views(fields@) == rust_fields(class@.properties),
    ensures
        final(code)@ == old(code)@ + rust_checks_text(class@.properties, errors@),
{
    let ghost views = rust_field_views(fields@);
    let ghost properties = class@.properties;
    let n: usize = fields.len();
    assert(n == class.properties.len()) by {
        assert(views.len() == properties.len());
    }
    let mut i: usize = 0;
    assert(properties.take(0) =~= Seq::empty());
    assert(code@ =~= old(code)@ + rust_checks_text(properties.take(0), errors@));
    while i < n
        invariant
            i <= n,
            n == fields.len(),
            n == class.properties.len(),
            properties == class@.properties,
            views == rust_field_views(fields@),
            views == rust_fields(properties),
            all_readable(class@),
            code@ == old(code)@ + rust_checks_text(properties.take(i as int), errors@),
        decreases n - i,
    {
        proof {
            let next = properties.take(i + 1);
            assert(next.drop_last() =~= properties.take(i as int));
            assert(next.last() == properties[i as int]);
            assert(readable_property(properties[i as int].1));
            assert(views[i as int] == fields[i as int]@);
        }
        append_property_checks(
            code,
            &fields[i],
            &class.properties[i].0,
            &class.properties[i].1,
            errors,
        );
        assert(code@ =~= old(code)@ + rust_checks_text(properties.take(i + 1), errors@));
        i += 1;
    }
    assert(properties.take(n as int) =~= properties);
}

/// Appends the factory of `class` to `code`.
pub fn append_factory(code: &mut String, class: &Class, fields: &Vec<RustField>, errors: &Enum)
    requires
        class@.error is Some,
        all_readable(class@),
        rust_field_views(fields@) == rust_fields(class@.properties),
    ensures
        final(code)@ == old(code)@ + rust_factory_text(class@, errors@),
{
    code.append("    pub fn build(");
    code.append(parameters_of(fields).as_str());
    code.append(") -> Result<Self, ");
    match &class.error {
        Some(name) => {
            code.append(name.as_str());
        },
        None => {},
    }
    code.append("> {\n");
    append_checks(code, class, fields, errors);
    code.append("        Ok(Self::new(");
    code.append(names_of(fields).as_str());
    code.append("))\n    }\n");
    assert(code@ =~= old(code)@ + rust_factory_text(class@, errors@));
}

/// Appends the methods of the struct of `class` to `code`.
pub fn append_methods(code: &mut String, class: &Class, error_enum: Option<&Enum>)
    requires
        rust_accepts(class@, optional_enum(error_enum)),
    ensures
        final(code)@ == old(code)@ + rust_methods_text(class@, optional_enum(error_enum)),
{
    let fields = fields_of(class);
    let fallible = class.has_validator() && class.error.is_some();
    code.append("\nimpl ");
    code.append(class.id.as_str());
    code.append(" {\n");
    append_constructor(code, fallible, &fields);
    if fallible {
        match error_enum {
            Some(errors) => {
                append_factory(code, class, &fields, errors);
            },
            None => {},
        }
    }
    append_accessors(code, &fields);
    code.append("}\n");
    assert(code@ =~= old(code)@ + rust_methods_text(class@, optional_enum(error_enum)));
}

/// Appends the source text of the class at `at` of the document `udl` and
/// an empty line to `code`.
fn append_class(generator: &RustGenerator, code: &mut String, udl: &UDL, at: usize)
    requires
        at < udl.models.len(),
        rust_accepts_document(udl@),
    ensures
        final(code)@ == old(code)@ + rust_class_texts(udl@)[at as int] + "\n\n"@,
{
    let class = &udl.models[at];
    let error_enum = find_error_enum(&udl.enums, class);
    assert(udl@.models[at as int] == class@);
    let (class_code, _) = generator.gen_class(class, error_enum);
    code.append(class_code.as_str());
    code.append("\n\n");
}

impl LangGenerator for RustGenerator {
    open spec fn extension_text(&self) -> Text {
        "rs"@
    }

    open spec fn enum_text(&self, enumm: EnumView) -> Text {
        rust_enum_text(enumm)
    }

    open spec fn accepts(&self, class: ClassView, error_enum: Option<EnumView>) -> bool {
        rust_accepts(class, error_enum)
    }

    open spec fn class_text(&self, class: ClassView, error_enum: Option<EnumView>) -> Text {
        rust_class_text(class, error_enum)
    }

    open spec fn class_imports(&self, class: ClassView, error_enum: Option<EnumView>) -> Seq<
        Text,
    > {
        Seq::empty()
    }

    open spec fn accepts_document(&self, document: DocumentView) -> bool {
        rust_accepts_document(document)
    }

    open spec fn document_text(&self, document: DocumentView) -> Text {
        rust_document_text(document)
    }

    open spec fn formatter_text(&self) -> Option<Text> {
        Some("rustfmt"@)
    }

    proof fn lemma_accepts_document(&self, document: DocumentView) {
    }

    proof fn lemma_validator_needs_error(
        &self,
        class: ClassView,
        error_enum: Option<EnumView>,
    ) {
    }

    proof fn lemma_document_text(&self, document: DocumentView) {
        assert(rust_enum_texts(document) =~= Seq::new(
            document.enums.len(),
            |i: int| self.enum_text(document.enums[i]),
        ));
        assert(rust_class_texts(document) =~= Seq::new(
            document.models.len(),
            |i: int|
                self.class_text(
                    document.models[i],
                    error_enum_of(document.enums, document.models[i]),
                ),
        ));
        assert(rust_import_lists(document) =~= Seq::new(
            document.models.len(),
            |i: int|
                self.class_imports(
                    document.models[i],
                    error_enum_of(document.enums, document.models[i]),
                ),
        ));
    }

    /// The extension of Rust files.
    fn extension(&self) -> (ext: &str)
        ensures
            ext@ == "rs"@,
    {
        "rs"
    }

    /// The Rust source text of an enumeration.
    fn gen_enum(&self, enumm: &Enum) -> (code: String)
        ensures
            code@ == rust_enum_text(enumm@),
    {
        let mut code = String::new();
        append_doc_comment(&mut code, enumm.description.as_ref());
        code.append("enum ");
        code.append(enumm.id.as_str());
        code.append(" {");
        let ghost head = code@;
        let mut i: usize = 0;
        assert(enumm@.variants.take(0) =~= Seq::empty());
        assert(code@ =~= head + rust_cases_text(enumm@.variants.take(0)));
        while i < enumm.variants.len()
            invariant
                i <= enumm.variants.len(),
                code@ == head + rust_cases_text(enumm@.variants.take(i as int)),
            decreases enumm.variants.len() - i,
        {
            proof {
                let next = enumm@.variants.take(i + 1);
                assert(next.drop_last() =~= enumm@.variants.take(i as int));
                assert(next.last() == enumm.variants[i as int]@);
            }
            let ghost before = code@;
            match &enumm.variants[i] {
                EnumKind::Simple(name) => {
                    code.append(name.as_str());
                    code.append(",");
                },
                EnumKind::Complex(variant) => {
                    append_doc_comment(&mut code, variant.description.as_ref());
                    code.append(variant.id.as_str());
                    code.append(",");
                },
            }
            assert(code@ =~= before + rust_case_text(enumm.variants[i as int]@));
            assert(code@ =~= head + rust_cases_text(enumm@.variants.take(i + 1)));
            i += 1;
        }
        assert(enumm@.variants.take(enumm.variants.len() as int) =~= enumm@.variants);
        code.append("}");
        if enumm.has_complex() {
            append_value_members(&mut code, enumm);
        }
        assert(code@ =~= rust_enum_text(enumm@));
        code
    }

    /// The Rust source text of a class; it needs no import.
    fn gen_class(&self, class: &Class, error_enum: Option<&Enum>) -> (r: (String, Vec<String>))
        ensures
            r.0@ == rust_class_text(class@, optional_enum(error_enum)),
            r.1@.len() == 0,
    {
        let mut code = String::new();
        append_doc_comment(&mut code, class.description.as_ref());
        code.append("pub struct ");
        code.append(class.id.as_str());
        code.append(" {");
        append_fields(&mut code, class);
        code.append("}\n");
        append_methods(&mut code, class, error_enum);
        assert(code@ =~= rust_class_text(class@, optional_enum(error_enum)));
        let imports: Vec<String> = Vec::new();
        assert(imports.deep_view() =~= Seq::<Text>::empty());
        (code, imports)
    }

    /// Whether the Rust backend renders `class`.
    fn accepts_class(&self, class: &Class, error_enum: Option<&Enum>) -> (ok: bool)
        ensures
            ok == rust_accepts(class@, optional_enum(error_enum)),
    {
        class_defect(class, error_enum).is_none()
    }

    /// The Rust source text of a document.
    fn generate(&self, udl: &UDL) -> (code: String)
        ensures
            code@ == rust_document_text(udl@),
    {
        let ghost enum_texts = rust_enum_texts(udl@);
        let ghost class_texts = rust_class_texts(udl@);
        let mut code = String::new();
        let mut i: usize = 0;
        assert(enum_texts.take(0) =~= Seq::empty());
        while i < udl.enums.len()
            invariant
                i <= udl.enums.len(),
                enum_texts == rust_enum_texts(udl@),
                code@ == blocks_text(enum_texts.take(i as int)),
            decreases udl.enums.len() - i,
        {
            proof {
                lemma_blocks_step(enum_texts, i as int);
                assert(enum_texts[i as int] == rust_enum_text(udl.enums[i as int]@));
            }
            code.append(self.gen_enum(&udl.enums[i]).as_str());
            code.append("\n\n");
            i += 1;
        }
        assert(enum_texts.take(udl.enums.len() as int) =~= enum_texts);
        let ghost head = code@;
        let mut i: usize = 0;
        assert(class_texts.take(0) =~= Seq::empty());
        assert(code@ =~= head + blocks_text(class_texts.take(0)));
        while i < udl.models.len()
            invariant
                i <= udl.models.len(),
                class_texts == rust_class_texts(udl@),
                rust_accepts_document(udl@),
                code@ == head + blocks_text(class_texts.take(i as int)),
            decreases udl.models.len() - i,
        {
            proof {
                lemma_blocks_step(class_texts, i as int);
            }
            append_class(self, &mut code, udl, i);
            assert(code@ =~= head + blocks_text(class_texts.take(i + 1)));
            i += 1;
        }
        assert(class_texts.take(udl.models.len() as int) =~= class_texts);
        proof {
            lemma_no_imports(rust_import_lists(udl@));
            assert(code@ =~= rust_document_text(udl@));
        }
        code
    }

    /// The program that formats Rust files.
    fn formatter(&self) -> (program: Option<&str>)
        ensures
            program.deep_view() == Some("rustfmt"@),
    {
        Some("rustfmt")
    }
}

} // verus!
