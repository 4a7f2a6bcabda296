//! The Dart backend: enumerations as Dart enums, classes as Dart classes
//! with final fields, and a factory that checks the constraints of a class
//! before it builds an instance.
use crate::casing::{camel_case, to_camel_case};
use crate::number::{int_text, int_to_string};
use crate::text::{
    chars_of, has_occurrence, join, join_with, lemma_occurs_between, lemma_separated, occurs_at,
    push_text, same_text, spells, without, Text,
};
use crate::udl::class::{get_entry, Class, ClassView, Property, PropertyKey, PropertyView};
use crate::udl::document::{DocumentView, UDL};
use crate::udl::enums::{
    Enum, EnumKind, EnumKindView, EnumVariantValue, EnumVariantValueView, EnumView,
};
use crate::udl::generator::{
    append_doc_comment, assembled, blocks_text, collected_imports, doc_comment, error_enum_of,
    find_error_enum, lemma_blocks_step, lemma_imports_step, merge_imports, merged_imports,
    optional_enum, LangGenerator,
};
use crate::udl::utils::{
    base_name, is_nullable_type, lemma_base_name_idempotent, lemma_base_name_unmarked, nullable,
    resolve_error_variant, resolved_variant,
};
use crate::udl::validate::{
    bounds_of, class_accepted, class_defect, entry_bounds, max_tag, min_tag, readable_entries,
    readable_property,
};
use vstd::prelude::*;
use vstd::string::*;

verus! {

/// The Dart backend.
pub struct DartGenerator();

/// What a structured variant carries in Dart: its string in brackets and
/// quotes; nothing for named fields.
pub open spec fn dart_payload(value: EnumVariantValueView) -> Text {
    match value {
        EnumVariantValueView::Single(text) => "(\""@ + text + "\")"@,
        EnumVariantValueView::Multiple(_) => Seq::empty(),
    }
}

/// One case of a Dart enum, written under the name `cased`. A bare name
/// ends in a comma; a structured variant has its description above it and
/// ends in a semicolon where it equals the last variant of the enumeration,
/// else in a comma.
pub open spec fn dart_case_named(cased: Text, kind: EnumKindView, last: EnumKindView) -> Text {
    match kind {
        EnumKindView::Simple(_) => cased + ","@,
        EnumKindView::Complex(variant) => doc_comment(variant.description) + cased + dart_payload(
            variant.value,
        ) + (if kind == last {
            ";"@
        } else {
            ","@
        }),
    }
}

/// One case of a Dart enum: the case under the name of the variant in
/// camel case.
pub open spec fn dart_case_text(kind: EnumKindView, last: EnumKindView) -> Text {
    dart_case_named(camel_case(kind.name()), kind, last)
}

/// The cases of a Dart enum, one after another.
pub open spec fn dart_cases_text(variants: Seq<EnumKindView>, last: EnumKindView) -> Text
    decreases variants.len(),
{
    if variants.len() == 0 {
        Seq::empty()
    } else {
        dart_cases_text(variants.drop_last(), last) + dart_case_text(variants.last(), last)
    }
}

/// What follows the cases of a Dart enum with values: the field that holds
/// the value of a case, and the constructor that sets it.
pub open spec fn dart_value_members(id: Text) -> Text {
    value_field() + "\n\n"@ + value_constructor(id)
}

/// The declaration of the field that holds the value of a case.
pub open spec fn value_field() -> Text {
    "final String value;"@
}

/// The constructor that sets the value of a case of the enum `id`.
pub open spec fn value_constructor(id: Text) -> Text {
    "const "@ + id + "(this.value);"@
}

/// The Dart source text of an enumeration. Where any variant is a
/// structured one, the whole enum has values: the value members follow its
/// cases.
pub open spec fn dart_enum_text(enumm: EnumView) -> Text {
    doc_comment(enumm.description) + "enum "@ + enumm.id + " {"@ + dart_cases_text(
        enumm.variants,
        enumm.variants.last(),
    ) + (if enumm.has_complex() {
        dart_value_members(enumm.id)
    } else {
        Seq::empty()
    }) + "}"@
}

/// Appends one case of a Dart enum to `code`, under the name `cased`.
pub fn append_case_named(code: &mut String, cased: &str, kind: &EnumKind, last: &EnumKind)
    ensures
        final(code)@ == old(code)@ + dart_case_named(cased@, kind@, last@),
{
    match kind {
        EnumKind::Simple(_) => {
            code.append(cased);
            code.append(",");
            assert(code@ =~= old(code)@ + dart_case_named(cased@, kind@, last@));
        },
        EnumKind::Complex(variant) => {
            let is_last = *kind == *last;
            append_doc_comment(code, variant.description.as_ref());
            code.append(cased);
            match &variant.value {
                EnumVariantValue::Single(text) => {
                    code.append("(\"");
                    code.append(text.as_str());
                    code.append("\")");
                },
                EnumVariantValue::Multiple(_) => {},
            }
            if is_last {
                code.append(";");
            } else {
                code.append(",");
            }
            assert(code@ =~= old(code)@ + dart_case_named(cased@, kind@, last@));
        },
    }
}

/// The cases of an enum of bare names: each name in camel case, and a
/// comma.
pub open spec fn plain_cases_text(variants: Seq<EnumKindView>) -> Text
    decreases variants.len(),
{
    if variants.len() == 0 {
        Seq::empty()
    } else {
        plain_cases_text(variants.drop_last()) + camel_case(variants.last().name()) + ","@
    }
}

/// The cases of bare names are plain cases.
proof fn lemma_plain_cases(variants: Seq<EnumKindView>, last: EnumKindView)
    requires
        forall|i: int| 0 <= i < variants.len() ==> !(#[trigger] variants[i] is Complex),
    ensures
        dart_cases_text(variants, last) == plain_cases_text(variants),
    decreases variants.len(),
{
    if variants.len() > 0 {
        assert(!(variants[variants.len() - 1] is Complex));
        lemma_plain_cases(variants.drop_last(), last);
        assert(dart_cases_text(variants, last) =~= plain_cases_text(variants));
    }
}

/// Where any variant of an enumeration is a structured one, the Dart enum
/// has values, whatever its other variants are: the value members follow
/// its cases. Where every variant is a bare name, the cases are just the
/// names, and nothing follows them.
pub proof fn lemma_enum_is_plain_or_valued(enumm: EnumView)
    ensures
        enumm.has_complex() ==> dart_enum_text(enumm) == doc_comment(enumm.description) + "enum "@
            + enumm.id + " {"@ + dart_cases_text(enumm.variants, enumm.variants.last())
            + dart_value_members(enumm.id) + "}"@,
        !enumm.has_complex() ==> dart_enum_text(enumm) == doc_comment(enumm.description) + "enum "@
            + enumm.id + " {"@ + plain_cases_text(enumm.variants) + "}"@,
{
    if !enumm.has_complex() {
        lemma_plain_cases(enumm.variants, enumm.variants.last());
        assert(dart_enum_text(enumm) =~= doc_comment(enumm.description) + "enum "@ + enumm.id
            + " {"@ + plain_cases_text(enumm.variants) + "}"@);
    }
}

/// The names of the variants in camel case, in their order.
pub open spec fn cased_names(variants: Seq<EnumKindView>) -> Seq<Text> {
    Seq::new(variants.len(), |i: int| camel_case(variants[i].name()))
}

/// The cases of a Dart enum, one after another, each written under the
/// name that `cased` holds at its place.
pub open spec fn dart_cases_named(
    variants: Seq<EnumKindView>,
    cased: Seq<Text>,
    last: EnumKindView,
) -> Text
    decreases variants.len(),
{
    if variants.len() == 0 || cased.len() != variants.len() {
        Seq::empty()
    } else {
        dart_cases_named(variants.drop_last(), cased.drop_last(), last) + dart_case_named(
            cased.last(),
            variants.last(),
            last,
        )
    }
}

/// The Dart source text of an enumeration whose cases are written under
/// the names `cased`.
pub open spec fn dart_enum_named(enumm: EnumView, cased: Seq<Text>) -> Text {
    doc_comment(enumm.description) + "enum "@ + enumm.id + " {"@ + dart_cases_named(
        enumm.variants,
        cased,
        enumm.variants.last(),
    ) + (if enumm.has_complex() {
        dart_value_members(enumm.id)
    } else {
        Seq::empty()
    }) + "}"@
}

/// The cases of a Dart enum are its cases under the names of the
/// variants in camel case.
proof fn lemma_cases_are_named(variants: Seq<EnumKindView>, last: EnumKindView)
    ensures
        dart_cases_text(variants, last) == dart_cases_named(variants, cased_names(variants), last),
    decreases variants.len(),
{
    if variants.len() > 0 {
        lemma_cases_are_named(variants.drop_last(), last);
        assert(cased_names(variants).drop_last() =~= cased_names(variants.drop_last()));
    }
}

/// The Dart source text of an enumeration is its text under the names of
/// its variants in camel case.
pub proof fn lemma_enum_text_is_named(enumm: EnumView)
    ensures
        dart_enum_text(enumm) == dart_enum_named(enumm, cased_names(enumm.variants)),
{
    lemma_cases_are_named(enumm.variants, enumm.variants.last());
}

/// The names of the variants of `enumm` in camel case, in their order.
pub fn cased_names_of(enumm: &Enum) -> (cased: Vec<String>)
    ensures
        cased.deep_view() == cased_names(enumm@.variants),
{
    let mut cased: Vec<String> = Vec::new();
    let mut i: usize = 0;
    assert(cased.deep_view() =~= cased_names(enumm@.variants.take(0)));
    while i < enumm.variants.len()
        invariant
            i <= enumm.variants.len(),
            cased.deep_view() == cased_names(enumm@.variants.take(i as int)),
        decreases enumm.variants.len() - i,
    {
        let name = to_camel_case(enumm.variants[i].name().as_str());
        proof {
            assert(cased_names(enumm@.variants.take(i + 1)) =~= cased_names(
                enumm@.variants.take(i as int),
            ).push(name@));
        }
        push_text(&mut cased, name);
        i += 1;
    }
    assert(enumm@.variants.take(enumm.variants.len() as int) =~= enumm@.variants);
    cased
}

/// The Dart source text of `enumm` with its cases written under the names
/// `cased`, one for each variant.
pub fn enum_named(enumm: &Enum, cased: &Vec<String>) -> (code: String)
    requires
        cased.len() == enumm.variants.len(),
    ensures
        code@ == dart_enum_named(enumm@, cased.deep_view()),
{
    let ghost names = cased.deep_view();
    let mut code = String::new();
    append_doc_comment(&mut code, enumm.description.as_ref());
    code.append("enum ");
    code.append(enumm.id.as_str());
    code.append(" {");
    let ghost head = code@;
    let n: usize = enumm.variants.len();
    let mut i: usize = 0;
    assert(enumm@.variants.take(0) =~= Seq::empty());
    assert(names.take(0) =~= Seq::empty());
    while i < n
        invariant
            i <= n,
            n == enumm.variants.len(),
            n == cased.len(),
            names == cased.deep_view(),
            code@ == head + dart_cases_named(
                enumm@.variants.take(i as int),
                names.take(i as int),
                enumm@.variants.last(),
            ),
        decreases n - i,
    {
        proof {
            let next = enumm@.variants.take(i + 1);
            assert(next.drop_last() =~= enumm@.variants.take(i as int));
            assert(next.last() == enumm.variants[i as int]@);
            assert(names.take(i + 1).drop_last() =~= names.take(i as int));
            assert(names.take(i + 1).last() == cased[i as int]@);
        }
        append_case_named(&mut code, cased[i].as_str(), &enumm.variants[i], &enumm.variants[n - 1]);
        i += 1;
    }
    assert(enumm@.variants.take(n as int) =~= enumm@.variants);
    assert(names.take(n as int) =~= names);
    if enumm.has_complex() {
        code.append("final String value;");
        code.append("\n\n");
        code.append("const ");
        code.append(enumm.id.as_str());
        code.append("(this.value);");
    }
    code.append("}");
    assert(code@ =~= dart_enum_named(enumm@, names));
    code
}

/// What the declaration of the value field is made of.
proof fn lemma_value_field_chars()
    ensures
        value_field().len() == 19,
        value_field()[0] == 'f',
        value_field().last() == ';',
        !value_field().contains('/'),
        !value_field().contains('\n'),
        !value_field().contains('m'),
        !value_field().contains('{'),
        !value_field().contains(','),
        !value_field().contains('}'),
{
    reveal_strlit("final String value;");
}

/// A text shorter than the declaration of the value field does not hold
/// it.
proof fn lemma_short_text(s: Text)
    requires
        s.len() < 19,
    ensures
        !has_occurrence(s, value_field()),
{
    lemma_value_field_chars();
    assert forall|at: int| !occurs_at(s, value_field(), at) by {}
}

/// The comment of a description that does not hold the declaration of the
/// value field does not hold it either.
proof fn lemma_comment_without_value_field(description: Option<Text>)
    requires
        description matches Some(text) ==> !has_occurrence(text, value_field()),
    ensures
        !has_occurrence(doc_comment(description), value_field()),
{
    lemma_value_field_chars();
    lemma_short_text(Seq::empty());
    match description {
        Some(text) => {
            reveal_strlit("/// ");
            reveal_strlit("\n");
            let open = Seq::<char>::empty() + "/// "@ + text;
            lemma_separated(Seq::empty(), "/// "@, text, value_field(), 0);
            lemma_separated(open, "\n"@, Seq::empty(), value_field(), 0);
            assert(open + "\n"@ + Seq::<char>::empty() =~= doc_comment(description));
        },
        None => {},
    }
}

/// Cases of bare names that do not hold the declaration of the value field
/// do not hold it either, between texts that do not hold it, where a
/// separator stands before the cases.
proof fn lemma_cases_without_value_field(
    pre: Text,
    sep: Text,
    k: int,
    variants: Seq<EnumKindView>,
    cased: Seq<Text>,
    last: EnumKindView,
    post: Text,
)
    requires
        !has_occurrence(pre, value_field()),
        !has_occurrence(post, value_field()),
        !sep.contains('f'),
        !sep.contains(';'),
        0 <= k < sep.len(),
        !value_field().contains(sep[k]),
        cased.len() == variants.len(),
        forall|i: int| 0 <= i < variants.len() ==> !(#[trigger] variants[i] is Complex),
        forall|i: int| 0 <= i < cased.len() ==> !has_occurrence(#[trigger] cased[i], value_field()),
    ensures
        !has_occurrence(pre + sep + dart_cases_named(variants, cased, last) + post, value_field()),
    decreases variants.len(),
{
    lemma_value_field_chars();
    if variants.len() == 0 {
        lemma_separated(pre, sep, post, value_field(), k);
        assert(pre + sep + dart_cases_named(variants, cased, last) + post =~= pre + sep + post);
    } else {
        let n = variants.len() - 1;
        assert(!(variants[n] is Complex));
        assert(!has_occurrence(cased[n], value_field()));
        assert forall|i: int| 0 <= i < n implies !has_occurrence(
            #[trigger] cased.drop_last()[i],
            value_field(),
        ) by {
            assert(cased.drop_last()[i] == cased[i]);
        }
        assert forall|i: int| 0 <= i < n implies !(#[trigger] variants.drop_last()[i] is Complex) by {
            assert(variants.drop_last()[i] == variants[i]);
        }
        lemma_cases_without_value_field(
            pre,
            sep,
            k,
            variants.drop_last(),
            cased.drop_last(),
            last,
            cased[n],
        );
        let before = pre + sep + dart_cases_named(variants.drop_last(), cased.drop_last(), last)
            + cased[n];
        reveal_strlit(",");
        lemma_separated(before, ","@, post, value_field(), 0);
        assert(pre + sep + dart_cases_named(variants, cased, last) + post =~= before + ","@ + post);
    }
}

/// Where the names of the cases, the name of the enumeration and its
/// description do not hold the declaration of the value field, the text of
/// the Dart enum holds that declaration exactly when some variant is a
/// structured one. A Dart enum with values holds its constructor too.
pub proof fn lemma_value_field_marks_valued_enum(enumm: EnumView, cased: Seq<Text>)
    requires
        cased.len() == enumm.variants.len(),
        !has_occurrence(enumm.id, value_field()),
        enumm.description matches Some(text) ==> !has_occurrence(text, value_field()),
        forall|i: int| 0 <= i < cased.len() ==> !has_occurrence(#[trigger] cased[i], value_field()),
    ensures
        has_occurrence(dart_enum_named(enumm, cased), value_field()) <==> enumm.has_complex(),
        enumm.has_complex() ==> has_occurrence(
            dart_enum_named(enumm, cased),
            value_constructor(enumm.id),
        ),
{
    let head = doc_comment(enumm.description) + "enum "@ + enumm.id;
    let cases = dart_cases_named(enumm.variants, cased, enumm.variants.last());
    if enumm.has_complex() {
        let opened = head + " {"@ + cases;
        lemma_occurs_between(
            opened,
            value_field(),
            "\n\n"@ + value_constructor(enumm.id) + "}"@,
        );
        assert(opened + value_field() + ("\n\n"@ + value_constructor(enumm.id) + "}"@)
            =~= dart_enum_named(enumm, cased));
        lemma_occurs_between(
            opened + value_field() + "\n\n"@,
            value_constructor(enumm.id),
            "}"@,
        );
        assert(opened + value_field() + "\n\n"@ + value_constructor(enumm.id) + "}"@
            =~= dart_enum_named(enumm, cased));
    } else {
        lemma_value_field_chars();
        lemma_comment_without_value_field(enumm.description);
        reveal_strlit("enum ");
        reveal_strlit(" {");
        reveal_strlit("}");
        lemma_separated(doc_comment(enumm.description), "enum "@, enumm.id, value_field(), 3);
        lemma_short_text("}"@);
        lemma_cases_without_value_field(
            head,
            " {"@,
            1,
            enumm.variants,
            cased,
            enumm.variants.last(),
            "}"@,
        );
        assert(head + " {"@ + cases + "}"@ =~= dart_enum_named(enumm, cased));
    }
}

/// The Dart name of a primitive type of the document; `None` for any other
/// name.
pub open spec fn dart_primitive(base: Text) -> Option<Text> {
    if base == "bool"@ {
        Some("bool"@)
    } else if base == "int"@ || base == "isize"@ || base == "int8"@ || base == "int16"@ || base
        == "int32"@ || base == "int64"@ || base == "usize"@ || base == "uint8"@ || base
        == "uint16"@ || base == "uint32"@ || base == "uint64"@ {
        Some("int"@)
    } else if base == "float"@ || base == "float32"@ || base == "float64"@ {
        Some("double"@)
    } else if base == "string"@ {
        Some("String"@)
    } else if base == "datetime"@ || base == "date"@ {
        Some("DateTime"@)
    } else if base == "object"@ {
        Some("Object"@)
    } else {
        None
    }
}

/// The Dart name of the type with the base name `base`: that of the
/// primitive type, or `base` itself, which then names a class or an
/// enumeration of the document.
pub open spec fn dart_type_name(base: Text) -> Text {
    match dart_primitive(base) {
        Some(name) => name,
        None => base,
    }
}

/// The mark that Dart puts behind a nullable type.
pub open spec fn nullable_suffix(raw: Text) -> Text {
    if nullable(raw) {
        "?"@
    } else {
        Seq::empty()
    }
}

/// The Dart types whose values are compared with a bound as they are; of
/// every other type the length is compared.
pub open spec fn is_dart_number(ty: Text) -> bool {
    ty == "int"@ || ty == "double"@
}

/// The type string `raw` without its marks.
pub fn clean_type_name(raw: &str) -> (name: String)
    ensures
        name@ == base_name(raw@),
{
    let unmarked = without(raw, "?");
    let required = without(unmarked.as_str(), "^");
    without(required.as_str(), "$enum::")
}

/// The Dart name of a primitive type of the document.
fn primitive_type(base: &str) -> (r: Option<&'static str>)
    ensures
        r.deep_view() == dart_primitive(base@),
{
    let chars = chars_of(base);
    if spells(&chars, "bool") {
        Some("bool")
    } else if spells(&chars, "int") || spells(&chars, "isize") || spells(&chars, "int8") || spells(
        &chars,
        "int16",
    ) || spells(&chars, "int32") || spells(&chars, "int64") || spells(&chars, "usize") || spells(
        &chars,
        "uint8",
    ) || spells(&chars, "uint16") || spells(&chars, "uint32") || spells(&chars, "uint64") {
        Some("int")
    } else if spells(&chars, "float") || spells(&chars, "float32") || spells(&chars, "float64") {
        Some("double")
    } else if spells(&chars, "string") {
        Some("String")
    } else if spells(&chars, "datetime") || spells(&chars, "date") {
        Some("DateTime")
    } else if spells(&chars, "object") {
        Some("Object")
    } else {
        None
    }
}

/// The Dart type that the type string `raw` names, and the mark that
/// follows it: `?` where the type is nullable, else nothing.
pub fn process_type(raw: &str) -> (r: (String, String))
    ensures
        r.0@ == dart_type_name(base_name(raw@)),
        r.1@ == nullable_suffix(raw@),
{
    let is_nullable = is_nullable_type(raw);
    let name = clean_type_name(raw);
    let mapped = match primitive_type(name.as_str()) {
        Some(primitive) => primitive.to_owned(),
        None => name,
    };
    let suffix = if is_nullable {
        "?".to_owned()
    } else {
        String::new()
    };
    (mapped, suffix)
}

/// A type string with the nullable mark is nullable for Dart: its suffix
/// is the mark `?`.
pub proof fn lemma_marked_type_is_nullable(raw: Text)
    requires
        raw.contains('?'),
    ensures
        nullable_suffix(raw) == "?"@,
{
}

/// The Dart type of a type string is that of its base name: the marks of
/// the string bear on nothing but whether the type is nullable. It holds
/// wherever a second stripping changes nothing, that is, where the base name
/// holds no enum mark.
pub proof fn lemma_type_of_base_name(raw: Text)
    requires
        !has_occurrence(base_name(raw), "$enum::"@),
    ensures
        dart_type_name(base_name(base_name(raw))) == dart_type_name(base_name(raw)),
        nullable_suffix(base_name(raw)) == Seq::<char>::empty(),
{
    lemma_base_name_idempotent(raw);
    lemma_base_name_unmarked(raw);
}

/// What the Dart backend reads off one property: its name in camel case,
/// its Dart type, whether it is nullable and private, and its description.
pub struct DartField<'a> {
    pub name: String,
    pub ty: String,
    pub nullable: bool,
    pub private: bool,
    pub description: Option<&'a String>,
}

/// The model of a [`DartField`].
pub struct DartFieldView {
    pub name: Text,
    pub ty: Text,
    pub nullable: bool,
    pub private: bool,
    pub description: Option<Text>,
}

impl<'a> View for DartField<'a> {
    type V = DartFieldView;

    open spec fn view(&self) -> DartFieldView {
        DartFieldView {
            name: self.name@,
            ty: self.ty@,
            nullable: self.nullable,
            private: self.private,
            description: self.description.deep_view(),
        }
    }
}

/// What the Dart backend reads off a property with the declaration
/// `property`, to be written under the name `cased`.
pub open spec fn dart_field_named(cased: Text, property: PropertyView) -> DartFieldView {
    DartFieldView {
        name: cased,
        ty: dart_type_name(base_name(property.raw_type()->0)),
        nullable: nullable(property.raw_type()->0),
        private: property.is_private(),
        description: property.description(),
    }
}

/// What the Dart backend reads off the property `name` with the
/// declaration `property`: the field under the name in camel case.
pub open spec fn dart_field(name: Text, property: PropertyView) -> DartFieldView {
    dart_field_named(camel_case(name), property)
}

/// What the Dart backend reads off each property, in their order.
pub open spec fn dart_fields(properties: Seq<(Text, PropertyView)>) -> Seq<DartFieldView> {
    Seq::new(properties.len(), |i: int| dart_field(properties[i].0, properties[i].1))
}

impl DartFieldView {
    /// The type of the field with its nullable mark.
    pub open spec fn type_text(self) -> Text {
        self.ty + (if self.nullable {
            "?"@
        } else {
            Seq::empty()
        })
    }

    /// The declaration of the field; the name of a private field begins
    /// with an underscore.
    pub open spec fn declaration(self) -> Text {
        doc_comment(self.description) + "final "@ + self.type_text() + " "@ + (if self.private {
            "_"@
        } else {
            Seq::empty()
        }) + self.name + ";"@
    }

    /// The parameter of the constructor that sets the field.
    pub open spec fn constructor_parameter(self) -> Text {
        if self.private {
            self.type_text() + " "@ + self.name
        } else {
            "required this."@ + self.name
        }
    }

    /// The parameter of the factory that takes the value of the field.
    pub open spec fn factory_parameter(self) -> Text {
        "required "@ + self.type_text() + " "@ + self.name
    }

    /// The initializer that sets a private field from its parameter.
    pub open spec fn initializer(self) -> Text {
        "_"@ + self.name + " = "@ + self.name
    }

    /// The getter that exposes a private field under its name.
    pub open spec fn getter(self) -> Text {
        "\n\n"@ + "    "@ + self.type_text() + " get "@ + self.name + " => _"@ + self.name + ";"@
    }

    /// The argument with which the factory hands the field to the
    /// constructor.
    pub open spec fn success_argument(self) -> Text {
        self.name + ":"@ + self.name + ","@
    }

    /// What a check compares with `bound`: the value of a number, else the
    /// length of the value, with `bound` in place of the length of a value
    /// that is null.
    pub open spec fn operand(self, bound: int) -> Text {
        if is_dart_number(self.ty) {
            self.name
        } else if self.nullable {
            "("@ + self.name + "?.length ?? "@ + int_text(bound) + ")"@
        } else {
            self.name + ".length"@
        }
    }
}

/// The declarations of the fields, one after another.
pub open spec fn declarations_text(fields: Seq<DartFieldView>) -> Text
    decreases fields.len(),
{
    if fields.len() == 0 {
        Seq::empty()
    } else {
        declarations_text(fields.drop_last()) + fields.last().declaration()
    }
}

/// The parameters of the constructor, one for each field.
pub open spec fn constructor_parameters(fields: Seq<DartFieldView>) -> Seq<Text> {
    Seq::new(fields.len(), |i: int| fields[i].constructor_parameter())
}

/// The parameters of the factory, one for each field.
pub open spec fn factory_parameters(fields: Seq<DartFieldView>) -> Seq<Text> {
    Seq::new(fields.len(), |i: int| fields[i].factory_parameter())
}

/// The initializers of the private fields, in their order.
pub open spec fn initializers(fields: Seq<DartFieldView>) -> Seq<Text>
    decreases fields.len(),
{
    if fields.len() == 0 {
        Seq::empty()
    } else if fields.last().private {
        initializers(fields.drop_last()).push(fields.last().initializer())
    } else {
        initializers(fields.drop_last())
    }
}

/// The initializer list of the constructor: nothing where no field is
/// private.
pub open spec fn initializer_list(fields: Seq<DartFieldView>) -> Text {
    if initializers(fields).len() == 0 {
        Seq::empty()
    } else {
        ": "@ + join_with(initializers(fields), ", "@)
    }
}

/// The constructor of a class: constant, with named parameters; private
/// under the name `_` where the class is built through its factory.
pub open spec fn constructor_text(id: Text, fallible: bool, fields: Seq<DartFieldView>) -> Text {
    "    const "@ + id + (if fallible {
        "._"@
    } else {
        Seq::empty()
    }) + "({ "@ + join_with(constructor_parameters(fields), ", "@) + " })"@ + initializer_list(
        fields,
    ) + ";"@
}

/// The getters of the private fields, one after another.
pub open spec fn getters_text(fields: Seq<DartFieldView>) -> Text
    decreases fields.len(),
{
    if fields.len() == 0 {
        Seq::empty()
    } else if fields.last().private {
        getters_text(fields.drop_last()) + fields.last().getter()
    } else {
        getters_text(fields.drop_last())
    }
}

/// The arguments with which the factory calls the constructor.
pub open spec fn success_arguments(fields: Seq<DartFieldView>) -> Text
    decreases fields.len(),
{
    if fields.len() == 0 {
        Seq::empty()
    } else {
        success_arguments(fields.drop_last()) + fields.last().success_argument()
    }
}

/// The models of the fields in `fields`.
pub open spec fn field_views(fields: Seq<DartField>) -> Seq<DartFieldView> {
    fields.map_values(|f: DartField| f@)
}

/// What the Dart backend reads off a property with the declaration
/// `property`, to be written under the name `cased`.
pub fn field_named<'a>(cased: String, property: &'a Property) -> (field: DartField<'a>)
    requires
        property@.raw_type() is Some,
    ensures
        field@ == dart_field_named(cased@, property@),
{
    let (ty, suffix) = match property.raw_type() {
        Some(raw) => process_type(raw.as_str()),
        None => (String::new(), String::new()),
    };
    let nullable = match property.raw_type() {
        Some(raw) => is_nullable_type(raw.as_str()),
        None => false,
    };
    let (private, description) = match property {
        Property::Type(_) => (false, None),
        Property::Mapping(entries) => {
            let private = match get_entry(entries, PropertyKey::Private) {
                Some(value) => same_text(value.as_str(), "true"),
                None => false,
            };
            (private, get_entry(entries, PropertyKey::Description))
        },
    };
    DartField { name: cased, ty, nullable, private, description }
}

/// What the Dart backend reads off the property `name` with the
/// declaration `property`.
pub fn field_of<'a>(name: &String, property: &'a Property) -> (field: DartField<'a>)
    requires
        property@.raw_type() is Some,
    ensures
        field@ == dart_field(name@, property@),
{
    field_named(to_camel_case(name.as_str()), property)
}

/// What the Dart backend reads off each property of `class`.
pub fn fields_of<'a>(class: &'a Class) -> (fields: Vec<DartField<'a>>)
    requires
        class@.well_formed(),
    ensures
        field_views(fields@) == dart_fields(class@.properties),
{
    let mut fields: Vec<DartField<'a>> = Vec::new();
    let mut i: usize = 0;
    while i < class.properties.len()
        invariant
            i <= class.properties.len(),
            class@.well_formed(),
            fields.len() == i,
            forall|k: int|
                0 <= k < i ==> (#[trigger] fields[k])@ == dart_field(
                    class@.properties[k].0,
                    class@.properties[k].1,
                ),
        decreases class.properties.len() - i,
    {
        assert(class@.properties[i as int].1.well_formed());
        let field = field_of(&class.properties[i].0, &class.properties[i].1);
        fields.push(field);
        i += 1;
    }
    assert(field_views(fields@) =~= dart_fields(class@.properties));
    fields
}

/// The text of a field's type with its nullable mark.
pub fn type_text_of(field: &DartField) -> (r: String)
    ensures
        r@ == field@.type_text(),
{
    let mut out = field.ty.clone();
    if field.nullable {
        out.append("?");
    }
    assert(out@ =~= field@.type_text());
    out
}

/// Appends the declarations of `fields` to `code`.
pub fn append_declarations(code: &mut String, fields: &Vec<DartField>)
    ensures
        final(code)@ == old(code)@ + declarations_text(field_views(fields@)),
{
    let ghost views = field_views(fields@);
    let mut i: usize = 0;
    assert(views.take(0) =~= Seq::empty());
    assert(code@ =~= old(code)@ + declarations_text(views.take(0)));
    while i < fields.len()
        invariant
            i <= fields.len(),
            views == field_views(fields@),
            code@ == old(code)@ + declarations_text(views.take(i as int)),
        decreases fields.len() - i,
    {
        proof {
            let next = views.take(i + 1);
            assert(next.drop_last() =~= views.take(i as int));
            assert(next.last() == fields[i as int]@);
        }
        let ghost before = code@;
        let field = &fields[i];
        append_doc_comment(code, field.description);
        code.append("final ");
        code.append(type_text_of(field).as_str());
        code.append(" ");
        if field.private {
            code.append("_");
        }
        code.append(field.name.as_str());
        code.append(";");
        assert(code@ =~= before + field@.declaration());
        assert(code@ =~= old(code)@ + declarations_text(views.take(i + 1)));
        i += 1;
    }
    assert(views.take(fields.len() as int) =~= views);
}

/// Appends the constructor of the class `id` to `code`.
pub fn append_constructor(code: &mut String, id: &String, fallible: bool, fields: &Vec<DartField>)
    ensures
        final(code)@ == old(code)@ + constructor_text(id@, fallible, field_views(fields@)),
{
    let ghost views = field_views(fields@);
    let mut parameters: Vec<String> = Vec::new();
    let mut private: Vec<String> = Vec::new();
    let mut i: usize = 0;
    assert(views.take(0) =~= Seq::empty());
    assert(parameters.deep_view() =~= Seq::empty());
    assert(private.deep_view() =~= Seq::empty());
    while i < fields.len()
        invariant
            i <= fields.len(),
            views == field_views(fields@),
            parameters.deep_view() == constructor_parameters(views.take(i as int)),
            private.deep_view() == initializers(views.take(i as int)),
        decreases fields.len() - i,
    {
        proof {
            let next = views.take(i + 1);
            assert(next.drop_last() =~= views.take(i as int));
            assert(next.last() == fields[i as int]@);
            assert(constructor_parameters(next) =~= constructor_parameters(
                views.take(i as int),
            ).push(fields[i as int]@.constructor_parameter()));
        }
        let field = &fields[i];
        if field.private {
            let mut parameter = type_text_of(field);
            parameter.append(" ");
            parameter.append(field.name.as_str());
            assert(parameter@ =~= field@.constructor_parameter());
            push_text(&mut parameters, parameter);
            let mut initializer = "_".to_owned();
            initializer.append(field.name.as_str());
            initializer.append(" = ");
            initializer.append(field.name.as_str());
            assert(initializer@ =~= field@.initializer());
            push_text(&mut private, initializer);
        } else {
            let mut parameter = "required this.".to_owned();
            parameter.append(field.name.as_str());
            assert(parameter@ =~= field@.constructor_parameter());
            push_text(&mut parameters, parameter);
        }
        i += 1;
    }
    assert(views.take(fields.len() as int) =~= views);
    code.append("    const ");
    code.append(id.as_str());
    if fallible {
        code.append("._");
    }
    code.append("({ ");
    code.append(join(&parameters, ", ").as_str());
    code.append(" })");
    if private.len() > 0 {
        code.append(": ");
        code.append(join(&private, ", ").as_str());
    }
    code.append(";");
    assert(code@ =~= old(code)@ + constructor_text(id@, fallible, views));
}

/// Appends the getters of the private fields among `fields` to `code`.
pub fn append_getters(code: &mut String, fields: &Vec<DartField>)
    ensures
        final(code)@ == old(code)@ + getters_text(field_views(fields@)),
{
    let ghost views = field_views(fields@);
    let mut i: usize = 0;
    assert(views.take(0) =~= Seq::empty());
    assert(code@ =~= old(code)@ + getters_text(views.take(0)));
    while i < fields.len()
        invariant
            i <= fields.len(),
            views == field_views(fields@),
            code@ == old(code)@ + getters_text(views.take(i as int)),
        decreases fields.len() - i,
    {
        proof {
            let next = views.take(i + 1);
            assert(next.drop_last() =~= views.take(i as int));
            assert(next.last() == fields[i as int]@);
        }
        let ghost before = code@;
        let field = &fields[i];
        if field.private {
            code.append("\n\n");
            code.append("    ");
            code.append(type_text_of(field).as_str());
            code.append(" get ");
            code.append(field.name.as_str());
            code.append(" => _");
            code.append(field.name.as_str());
            code.append(";");
            assert(code@ =~= before + field@.getter());
        }
        assert(code@ =~= old(code)@ + getters_text(views.take(i + 1)));
        i += 1;
    }
    assert(views.take(fields.len() as int) =~= views);
}

/// The check of one bound of the property `property`: where the error
/// enumeration has a variant for it, a test that returns that variant as a
/// failure; else nothing.
pub open spec fn bound_check(
    field: DartFieldView,
    property: Text,
    errors: EnumView,
    is_min: bool,
    bound: int,
) -> Text {
    match resolved_variant(
        errors,
        if is_min {
            min_tag()
        } else {
            max_tag()
        },
        property,
    ) {
        Some(variant) => check_named(field, errors.id, camel_case(variant), is_min, bound),
        None => Seq::empty(),
    }
}

/// The checks of the entry `key: value`: that of its minimum, then that of
/// its maximum, each where the bound is present.
pub open spec fn entry_checks(
    field: DartFieldView,
    property: Text,
    errors: EnumView,
    key: PropertyKey,
    value: Text,
) -> Text {
    match entry_bounds(key, value) {
        Some(bounds) => (if bounds.0 != -1 {
            bound_check(field, property, errors, true, bounds.0)
        } else {
            Seq::empty()
        }) + (if bounds.1 != -1 {
            bound_check(field, property, errors, false, bounds.1)
        } else {
            Seq::empty()
        }),
        None => Seq::empty(),
    }
}

/// The checks of the entries of one property, in their order.
pub open spec fn entries_checks(
    field: DartFieldView,
    property: Text,
    errors: EnumView,
    entries: Seq<(PropertyKey, Text)>,
) -> Text
    decreases entries.len(),
{
    if entries.len() == 0 {
        Seq::empty()
    } else {
        entries_checks(field, property, errors, entries.drop_last()) + entry_checks(
            field,
            property,
            errors,
            entries.last().0,
            entries.last().1,
        )
    }
}

/// The checks of one property: none for a bare type.
pub open spec fn property_checks(name: Text, property: PropertyView, errors: EnumView) -> Text {
    match property {
        PropertyView::Type(_) => Seq::empty(),
        PropertyView::Mapping(entries) => entries_checks(
            dart_field(name, property),
            name,
            errors,
            entries,
        ),
    }
}

/// The checks of the properties of a class, in their order.
pub open spec fn checks_text(properties: Seq<(Text, PropertyView)>, errors: EnumView) -> Text
    decreases properties.len(),
{
    if properties.len() == 0 {
        Seq::empty()
    } else {
        checks_text(properties.drop_last(), errors) + property_checks(
            properties.last().0,
            properties.last().1,
            errors,
        )
    }
}

/// The factory of a class: it takes the value of each field, runs the
/// checks in the order of the properties, and hands the values to the
/// private constructor where all checks pass.
pub open spec fn factory_text(class: ClassView, errors: EnumView) -> Text {
    "    static ResultDart<"@ + class.id + ", "@ + class.error->0 + "> build({ "@ + join_with(
        factory_parameters(dart_fields(class.properties)),
        ", "@,
    ) + " }) {"@ + checks_text(class.properties, errors) + "return Success("@ + class.id + "._("@
        + success_arguments(dart_fields(class.properties)) + "));"@ + "}"@
}

/// The import that the factory of a class needs.
pub open spec fn result_import() -> Text {
    "import 'package:result_dart/result_dart.dart';\n"@
}

/// The Dart source text of a class: its fields, its constructor, its
/// factory where the class has a validator, and the getters of its private
/// fields.
pub open spec fn dart_class_text(class: ClassView, error_enum: Option<EnumView>) -> Text {
    doc_comment(class.description) + "class "@ + class.id + " {"@ + declarations_text(
        dart_fields(class.properties),
    ) + "\n\n"@ + constructor_text(class.id, class.is_fallible(), dart_fields(class.properties))
        + "\n\n"@ + (if class.is_fallible() {
        factory_text(class, error_enum->0)
    } else {
        Seq::empty()
    }) + getters_text(dart_fields(class.properties)) + "}\n"@
}

/// The imports that the Dart source text of a class needs: that of the
/// result type, where the class has a factory.
pub open spec fn dart_class_imports(class: ClassView) -> Seq<Text> {
    if class.is_fallible() {
        seq![result_import()]
    } else {
        Seq::empty()
    }
}

/// What a check of `field` compares with `bound`.
pub fn operand_of(field: &DartField, bound: isize) -> (r: String)
    ensures
        r@ == field@.operand(bound as int),
{
    let ty = chars_of(field.ty.as_str());
    let mut out = String::new();
    if spells(&ty, "int") || spells(&ty, "double") {
        out.append(field.name.as_str());
    } else if field.nullable {
        out.append("(");
        out.append(field.name.as_str());
        out.append("?.length ?? ");
        out.append(int_to_string(bound).as_str());
        out.append(")");
    } else {
        out.append(field.name.as_str());
        out.append(".length");
    }
    assert(out@ =~= field@.operand(bound as int));
    out
}

/// The test of a check: the operand, the comparison and the bound.
pub open spec fn bound_test(field: DartFieldView, is_min: bool, bound: int) -> Text {
    "if ("@ + field.operand(bound) + " "@ + (if is_min {
        "<"@
    } else {
        ">"@
    }) + " "@ + int_text(bound) + ") {\n"@
}

/// The statement of a check: it returns the case `cased` of the
/// enumeration `errors` as a failure.
pub open spec fn failure_named(errors: Text, cased: Text) -> Text {
    "    return Failure("@ + errors + "."@ + cased + ");\n"@
}

/// The check of one bound: the test, the statement that returns the case
/// `cased` of the enumeration `errors` as a failure, and the closing brace.
pub open spec fn check_named(
    field: DartFieldView,
    errors: Text,
    cased: Text,
    is_min: bool,
    bound: int,
) -> Text {
    bound_test(field, is_min, bound) + failure_named(errors, cased) + "}\n"@
}

/// The test of a check of `field`.
pub fn test_of(field: &DartField, is_min: bool, bound: isize) -> (r: String)
    ensures
        r@ == bound_test(field@, is_min, bound as int),
{
    let mut out = String::new();
    out.append("if (");
    out.append(operand_of(field, bound).as_str());
    out.append(" ");
    if is_min {
        out.append("<");
    } else {
        out.append(">");
    }
    out.append(" ");
    out.append(int_to_string(bound).as_str());
    out.append(") {\n");
    assert(out@ =~= bound_test(field@, is_min, bound as int));
    out
}

/// The statement that returns the case `cased` of `errors` as a failure.
pub fn failure_of(errors: &String, cased: &str) -> (r: String)
    ensures
        r@ == failure_named(errors@, cased@),
{
    let mut out = String::new();
    out.append("    return Failure(");
    out.append(errors.as_str());
    out.append(".");
    out.append(cased);
    out.append(");\n");
    assert(out@ =~= failure_named(errors@, cased@));
    out
}

/// The check of one bound of `field`, which returns the case `cased` of
/// `errors` as a failure.
pub fn check_of(field: &DartField, errors: &String, cased: &str, is_min: bool, bound: isize) -> (r:
    String)
    ensures
        r@ == check_named(field@, errors@, cased@, is_min, bound as int),
{
    let mut out = test_of(field, is_min, bound);
    out.append(failure_of(errors, cased).as_str());
    out.append("}\n");
    out
}

/// Appends the check of one bound to `code`.
pub fn append_bound_check(
    code: &mut String,
    field: &DartField,
    property: &String,
    errors: &Enum,
    is_min: bool,
    bound: isize,
)
    ensures
        final(code)@ == old(code)@ + bound_check(
            field@,
            property@,
            errors@,
            is_min,
            bound as int,
        ),
{
    let tag = if is_min {
        "limit:min"
    } else {
        "limit:max"
    };
    match resolve_error_variant(errors, tag, property.as_str()) {
        Some(variant) => {
            let cased = to_camel_case(variant.as_str());
            let check = check_of(field, &errors.id, cased.as_str(), is_min, bound);
            code.append(check.as_str());
        },
        None => {
            assert(code@ =~= old(code)@ + Seq::<char>::empty());
        },
    }
}

/// Appends the checks of one property to `code`.
pub fn append_property_checks(
    code: &mut String,
    field: &DartField,
    name: &String,
    property: &Property,
    errors: &Enum,
)
    requires
        readable_property(property@),
        field@ == dart_field(name@, property@),
    ensures
        final(code)@ == old(code)@ + property_checks(name@, property@, errors@),
{
    match property {
        Property::Type(_) => {
            assert(code@ =~= old(code)@ + property_checks(name@, property@, errors@));
        },
        Property::Mapping(entries) => {
            let ghost model = entries@.map_values(|e: (PropertyKey, String)| (e.0, e.1@));
            let mut i: usize = 0;
            assert(model.take(0) =~= Seq::empty());
            assert(code@ =~= old(code)@ + entries_checks(
                field@,
                name@,
                errors@,
                model.take(0),
            ));
            while i < entries.len()
                invariant
                    i <= entries.len(),
                    model == entries@.map_values(|e: (PropertyKey, String)| (e.0, e.1@)),
                    readable_entries(model),
                    code@ == old(code)@ + entries_checks(
                        field@,
                        name@,
                        errors@,
                        model.take(i as int),
                    ),
                decreases entries.len() - i,
            {
                proof {
                    let next = model.take(i + 1);
                    assert(next.drop_last() =~= model.take(i as int));
                    assert(next.last() == model[i as int]);
                    assert(entry_bounds(model[i as int].0, model[i as int].1) is Some);
                }
                let ghost before = code@;
                match bounds_of(&entries[i].0, &entries[i].1) {
                    Some(bounds) => {
                        if bounds.0 != -1 {
                            append_bound_check(code, field, name, errors, true, bounds.0);
                        }
                        let ghost between = code@;
                        if bounds.1 != -1 {
                            append_bound_check(code, field, name, errors, false, bounds.1);
                        }
                        assert(code@ =~= before + entry_checks(
                            field@,
                            name@,
                            errors@,
                            model[i as int].0,
                            model[i as int].1,
                        ));
                    },
                    None => {},
                }
                assert(code@ =~= old(code)@ + entries_checks(
                    field@,
                    name@,
                    errors@,
                    model.take(i + 1),
                ));
                i += 1;
            }
            assert(model.take(entries.len() as int) =~= model);
        },
    }
}

/// Appends the factory of `class` to `code`.
pub fn append_factory(code: &mut String, class: &Class, fields: &Vec<DartField>, errors: &Enum)
    requires
        class@.well_formed(),
        class@.error is Some,
        forall|i: int|
            0 <= i < class@.properties.len() ==> readable_property(
                (#[trigger] class@.properties[i]).1,
            ),
        field_views(fields@) == dart_fields(class@.properties),
    ensures
        final(code)@ == old(code)@ + factory_text(class@, errors@),
{
    let ghost views = field_views(fields@);
    let ghost properties = class@.properties;
    let n: usize = fields.len();
    assert(n == class.properties.len()) by {
        assert(views.len() == properties.len());
    }
    let mut parameters: Vec<String> = Vec::new();
    let mut i: usize = 0;
    assert(views.take(0) =~= Seq::empty());
    assert(parameters.deep_view() =~= Seq::empty());
    while i < n
        invariant
            i <= n,
            n == fields.len(),
            views == field_views(fields@),
            parameters.deep_view() == factory_parameters(views.take(i as int)),
        decreases n - i,
    {
        proof {
            let next = views.take(i + 1);
            assert(next.last() == fields[i as int]@);
            assert(factory_parameters(next) =~= factory_parameters(views.take(i as int)).push(
                fields[i as int]@.factory_parameter(),
            ));
        }
        let field = &fields[i];
        let mut parameter = "required ".to_owned();
        parameter.append(type_text_of(field).as_str());
        parameter.append(" ");
        parameter.append(field.name.as_str());
        assert(parameter@ =~= field@.factory_parameter());
        push_text(&mut parameters, parameter);
        i += 1;
    }
    assert(views.take(n as int) =~= views);
    let error_name = match &class.error {
        Some(name) => name.clone(),
        None => String::new(),
    };
    code.append("    static ResultDart<");
    code.append(class.id.as_str());
    code.append(", ");
    code.append(error_name.as_str());
    code.append("> build({ ");
    code.append(join(&parameters, ", ").as_str());
    code.append(" }) {");
    let ghost head = code@;

    let mut i: usize = 0;
    assert(properties.take(0) =~= Seq::empty());
    assert(code@ =~= head + checks_text(properties.take(0), errors@));
    while i < n
        invariant
            i <= n,
            n == fields.len(),
            n == class.properties.len(),
            properties == class@.properties,
            views == field_views(fields@),
            views == dart_fields(properties),
            forall|k: int|
                0 <= k < properties.len() ==> readable_property((#[trigger] properties[k]).1),
            code@ == head + checks_text(properties.take(i as int), errors@),
        decreases n - i,
    {
        proof {
            let next = properties.take(i + 1);
            assert(next.drop_last() =~= properties.take(i as int));
            assert(next.last() == properties[i as int]);
            assert(readable_property(properties[i as int].1));
            assert(views[i as int] == fields[i as int]@);
        }
        append_property_checks(
            code,
            &fields[i],
            &class.properties[i].0,
            &class.properties[i].1,
            errors,
        );
        assert(code@ =~= head + checks_text(properties.take(i + 1), errors@));
        i += 1;
    }
    assert(properties.take(n as int) =~= properties);
    let ghost checked = code@;

    code.append("return Success(");
    code.append(class.id.as_str());
    code.append("._(");
    let ghost opened = code@;
    let mut i: usize = 0;
    assert(code@ =~= opened + success_arguments(views.take(0)));
    while i < n
        invariant
            i <= n,
            n == fields.len(),
            views == field_views(fields@),
            code@ == opened + success_arguments(views.take(i as int)),
        decreases n - i,
    {
        proof {
            let next = views.take(i + 1);
            assert(next.drop_last() =~= views.take(i as int));
            assert(next.last() == fields[i as int]@);
        }
        let ghost before = code@;
        code.append(fields[i].name.as_str());
        code.append(":");
        code.append(fields[i].name.as_str());
        code.append(",");
        assert(code@ =~= before + fields[i as int]@.success_argument());
        assert(code@ =~= opened + success_arguments(views.take(i + 1)));
        i += 1;
    }
    code.append("));");
    code.append("}");
    assert(code@ =~= old(code)@ + factory_text(class@, errors@));
}

/// The Dart source texts of the enumerations of a document.
pub open spec fn dart_enum_texts(document: DocumentView) -> Seq<Text> {
    Seq::new(document.enums.len(), |i: int| dart_enum_text(document.enums[i]))
}

/// The Dart source texts of the classes of a document.
pub open spec fn dart_class_texts(document: DocumentView) -> Seq<Text> {
    Seq::new(
        document.models.len(),
        |i: int|
            dart_class_text(document.models[i], error_enum_of(document.enums, document.models[i])),
    )
}

/// The imports that each class of a document needs.
pub open spec fn dart_import_lists(document: DocumentView) -> Seq<Seq<Text>> {
    Seq::new(document.models.len(), |i: int| dart_class_imports(document.models[i]))
}

/// The documents that the Dart backend renders: those of which it
/// renders every class.
pub open spec fn dart_accepts_document(document: DocumentView) -> bool {
    forall|i: int|
        0 <= i < document.models.len() ==> dart_accepts(
            #[trigger] document.models[i],
            error_enum_of(document.enums, document.models[i]),
        )
}

/// The Dart source text of a document: its enumerations, then its
/// classes, then the imports that the classes need, one to a line.
pub open spec fn dart_document_text(document: DocumentView) -> Text {
    assembled(dart_enum_texts(document), dart_class_texts(document), dart_import_lists(document))
}

/// Appends the source text of the class at `at` of the document `udl` and
/// an empty line to `code`, and adds the imports of the class to `imports`.
fn append_class(
    generator: &DartGenerator,
    code: &mut String,
    imports: &mut Vec<String>,
    udl: &UDL,
    at: usize,
)
    requires
        at < udl.models.len(),
        dart_accepts_document(udl@),
    ensures
        final(code)@ == old(code)@ + dart_class_texts(udl@)[at as int] + "\n\n"@,
        final(imports).deep_view() == merged_imports(
            old(imports).deep_view(),
            dart_import_lists(udl@)[at as int],
        ),
{
    let class = &udl.models[at];
    let error_enum = find_error_enum(&udl.enums, class);
    assert(udl@.models[at as int] == class@);
    let (class_code, class_imports) = generator.gen_class(class, error_enum);
    code.append(class_code.as_str());
    code.append("\n\n");
    merge_imports(imports, &class_imports);
}

/// The classes that the Dart backend renders.
pub open spec fn dart_accepts(class: ClassView, error_enum: Option<EnumView>) -> bool {
    class_accepted(class, error_enum)
}

impl LangGenerator for DartGenerator {
    open spec fn extension_text(&self) -> Text {
        "dart"@
    }

    open spec fn enum_text(&self, enumm: EnumView) -> Text {
        dart_enum_text(enumm)
    }

    open spec fn accepts(&self, class: ClassView, error_enum: Option<EnumView>) -> bool {
        dart_accepts(class, error_enum)
    }

    open spec fn class_text(&self, class: ClassView, error_enum: Option<EnumView>) -> Text {
        dart_class_text(class, error_enum)
    }

    open spec fn class_imports(&self, class: ClassView, error_enum: Option<EnumView>) -> Seq<
        Text,
    > {
        dart_class_imports(class)
    }

    open spec fn accepts_document(&self, document: DocumentView) -> bool {
        dart_accepts_document(document)
    }

    open spec fn document_text(&self, document: DocumentView) -> Text {
        dart_document_text(document)
    }

    open spec fn formatter_text(&self) -> Option<Text> {
        None
    }

    proof fn lemma_accepts_document(&self, document: DocumentView) {
    }

    proof fn lemma_validator_needs_error(
        &self,
        class: ClassView,
        error_enum: Option<EnumView>,
    ) {
    }

    proof fn lemma_document_text(&self, document: DocumentView) {
        assert(dart_enum_texts(document) =~= Seq::new(
            document.enums.len(),
            |i: int| self.enum_text(document.enums[i]),
        ));
        assert(dart_class_texts(document) =~= Seq::new(
            document.models.len(),
            |i: int|
                self.class_text(
                    document.models[i],
                    error_enum_of(document.enums, document.models[i]),
                ),
        ));
        assert(dart_import_lists(document) =~= Seq::new(
            document.models.len(),
            |i: int|
                self.class_imports(
                    document.models[i],
                    error_enum_of(document.enums, document.models[i]),
                ),
        ));
    }

    /// The extension of Dart files.
    fn extension(&self) -> (ext: &str)
        ensures
            ext@ == "dart"@,
    {
        "dart"
    }

    /// The Dart source text of an enumeration.
    fn gen_enum(&self, enumm: &Enum) -> (code: String)
        ensures
            code@ == dart_enum_text(enumm@),
    {
        let cased = cased_names_of(enumm);
        proof {
            lemma_enum_text_is_named(enumm@);
        }
        enum_named(enumm, &cased)
    }

    /// The Dart source text of a class, and the imports that it needs.
    fn gen_class(&self, class: &Class, error_enum: Option<&Enum>) -> (r: (String, Vec<String>))
        ensures
            r.0@ == dart_class_text(class@, optional_enum(error_enum)),
            r.1.deep_view() == dart_class_imports(class@),
    {
        let mut imports: Vec<String> = Vec::new();
        assert(imports.deep_view() =~= Seq::<Text>::empty());
        let fields = fields_of(class);
        let fallible = class.has_validator() && class.error.is_some();
        let mut code = String::new();
        append_doc_comment(&mut code, class.description.as_ref());
        code.append("class ");
        code.append(class.id.as_str());
        code.append(" {");
        append_declarations(&mut code, &fields);
        code.append("\n\n");
        append_constructor(&mut code, &class.id, fallible, &fields);
        code.append("\n\n");
        if fallible {
            match error_enum {
                Some(errors) => {
                    append_factory(&mut code, class, &fields, errors);
                },
                None => {},
            }
            push_text(&mut imports, "import 'package:result_dart/result_dart.dart';\n".to_owned());
            assert(imports.deep_view() =~= seq![result_import()]);
        }
        append_getters(&mut code, &fields);
        code.append("}\n");
        assert(code@ =~= dart_class_text(class@, optional_enum(error_enum)));
        (code, imports)
    }

    /// Whether the Dart backend renders `class`.
    fn accepts_class(&self, class: &Class, error_enum: Option<&Enum>) -> (ok: bool)
        ensures
            ok == dart_accepts(class@, optional_enum(error_enum)),
    {
        class_defect(class, error_enum).is_none()
    }

    /// The Dart source text of a document.
    fn generate(&self, udl: &UDL) -> (code: String)
        ensures
            code@ == dart_document_text(udl@),
    {
        let ghost enum_texts = dart_enum_texts(udl@);
        let ghost class_texts = dart_class_texts(udl@);
        let ghost import_lists = dart_import_lists(udl@);
        let mut imports: Vec<String> = Vec::new();
        let mut code = String::new();
        let mut i: usize = 0;
        assert(enum_texts.take(0) =~= Seq::empty());
        assert(imports.deep_view() =~= Seq::<Text>::empty());
        while i < udl.enums.len()
            invariant
                i <= udl.enums.len(),
                enum_texts == dart_enum_texts(udl@),
                code@ == blocks_text(enum_texts.take(i as int)),
            decreases udl.enums.len() - i,
        {
            proof {
                lemma_blocks_step(enum_texts, i as int);
                assert(enum_texts[i as int] == dart_enum_text(udl.enums[i as int]@));
            }
            code.append(self.gen_enum(&udl.enums[i]).as_str());
            code.append("\n\n");
            i += 1;
        }
        assert(enum_texts.take(udl.enums.len() as int) =~= enum_texts);
        let ghost head = code@;
        let mut i: usize = 0;
        assert(class_texts.take(0) =~= Seq::empty());
        assert(import_lists.take(0) =~= Seq::empty());
        assert(code@ =~= head + blocks_text(class_texts.take(0)));
        while i < udl.models.len()
            invariant
                i <= udl.models.len(),
                class_texts == dart_class_texts(udl@),
                import_lists == dart_import_lists(udl@),
                dart_accepts_document(udl@),
                code@ == head + blocks_text(class_texts.take(i as int)),
                imports.deep_view() == collected_imports(import_lists.take(i as int)),
            decreases udl.models.len() - i,
        {
            proof {
                lemma_blocks_step(class_texts, i as int);
                lemma_imports_step(import_lists, i as int);
            }
            let ghost before = code@;
            append_class(self, &mut code, &mut imports, udl, i);
            assert(code@ =~= head + blocks_text(class_texts.take(i + 1)));
            i += 1;
        }
        assert(class_texts.take(udl.models.len() as int) =~= class_texts);
        assert(import_lists.take(udl.models.len() as int) =~= import_lists);
        code.append(join(&imports, "\n").as_str());
        code
    }

    /// The Dart backend has no formatter.
    fn formatter(&self) -> (program: Option<&str>)
        ensures
            program is None,
    {
        None
    }
}

} // verus!
