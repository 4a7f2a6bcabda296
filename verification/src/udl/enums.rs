//! Enumerations of a document: plain ones, and ones whose variants carry a
//! value, a description and, in an error enumeration, the constraint that
//! they report.
use crate::text::{same_string, Text};
use vstd::prelude::*;
use vstd::std_specs::cmp::PartialEqSpecImpl;

verus! {

/// An enumeration.
#[derive(Debug, Clone)]
pub struct Enum {
    pub id: String,
    pub description: Option<String>,
    pub variants: Vec<EnumKind>,
}

/// One variant of an enumeration: a bare name, or a structured variant.
#[derive(Debug, Clone)]
pub enum EnumKind {
    Simple(String),
    Complex(EnumVariant),
}

/// A structured variant. `target` names the constraint whose violation the
/// variant reports (such as `limit:min`), `target_field` the property that
/// it reports it for.
#[derive(Debug, Clone)]
pub struct EnumVariant {
    pub id: String,
    pub description: Option<String>,
    pub value: EnumVariantValue,
    pub target: Option<String>,
    pub target_field: Option<String>,
}

/// What a structured variant carries: one string, or named fields with
/// their types, in the order of the document.
#[derive(Debug, Clone)]
pub enum EnumVariantValue {
    Single(String),
    Multiple(Vec<(String, String)>),
}

/// The model of an [`Enum`].
pub struct EnumView {
    pub id: Text,
    pub description: Option<Text>,
    pub variants: Seq<EnumKindView>,
}

/// The model of an [`EnumKind`].
pub enum EnumKindView {
    Simple(Text),
    Complex(EnumVariantView),
}

/// The model of an [`EnumVariant`].
pub struct EnumVariantView {
    pub id: Text,
    pub description: Option<Text>,
    pub value: EnumVariantValueView,
    pub target: Option<Text>,
    pub target_field: Option<Text>,
}

/// The model of an [`EnumVariantValue`]. The fields of `Multiple` form a
/// mapping from name to type: their order is not part of the model.
pub enum EnumVariantValueView {
    Single(Text),
    Multiple(Map<Text, Text>),
}

/// The type that `entries` gives for the field `name`: that of the last
/// entry with this name.
pub open spec fn field_value(entries: Seq<(Text, Text)>, name: Text) -> Option<Text>
    decreases entries.len(),
{
    if entries.len() == 0 {
        None
    } else if entries.last().0 == name {
        Some(entries.last().1)
    } else {
        field_value(entries.drop_last(), name)
    }
}

/// The mapping from field name to type that `entries` write down.
pub open spec fn fields_map(entries: Seq<(Text, Text)>) -> Map<Text, Text> {
    Map::new(
        |name: Text| field_value(entries, name) is Some,
        |name: Text| field_value(entries, name)->0,
    )
}

impl View for EnumVariantValue {
    type V = EnumVariantValueView;

    open spec fn view(&self) -> EnumVariantValueView {
        match self {
            EnumVariantValue::Single(s) => EnumVariantValueView::Single(s@),
            EnumVariantValue::Multiple(entries) => EnumVariantValueView::Multiple(
                fields_map(entries.deep_view()),
            ),
        }
    }
}

impl View for EnumVariant {
    type V = EnumVariantView;

    open spec fn view(&self) -> EnumVariantView {
        EnumVariantView {
            id: self.id@,
            description: self.description.deep_view(),
            value: self.value@,
            target: self.target.deep_view(),
            target_field: self.target_field.deep_view(),
        }
    }
}

impl View for EnumKind {
    type V = EnumKindView;

    open spec fn view(&self) -> EnumKindView {
        match self {
            EnumKind::Simple(name) => EnumKindView::Simple(name@),
            EnumKind::Complex(variant) => EnumKindView::Complex(variant@),
        }
    }
}

impl View for Enum {
    type V = EnumView;

    open spec fn view(&self) -> EnumView {
        EnumView {
            id: self.id@,
            description: self.description.deep_view(),
            variants: self.variants@.map_values(|k: EnumKind| k@),
        }
    }
}

impl EnumView {
    /// Some variant of the enumeration is a structured one.
    pub open spec fn has_complex(self) -> bool {
        exists|i: int| 0 <= i < self.variants.len() && #[trigger] self.variants[i] is Complex
    }
}

impl EnumKindView {
    /// The name of the variant.
    pub open spec fn name(self) -> Text {
        match self {
            EnumKindView::Simple(name) => name,
            EnumKindView::Complex(variant) => variant.id,
        }
    }
}

impl EnumKind {
    /// The name of the variant.
    pub fn name(&self) -> (name: &String)
        ensures
            name@ == self@.name(),
    {
        match self {
            EnumKind::Simple(name) => name,
            EnumKind::Complex(variant) => &variant.id,
        }
    }
}

impl Enum {
    /// Whether some variant of the enumeration is a structured one.
    pub fn has_complex(&self) -> (r: bool)
        ensures
            r == self@.has_complex(),
    {
        let mut i: usize = 0;
        while i < self.variants.len()
            invariant
                i <= self.variants.len(),
                forall|k: int| 0 <= k < i ==> !(#[trigger] self@.variants[k] is Complex),
            decreases self.variants.len() - i,
        {
            match &self.variants[i] {
                EnumKind::Complex(_) => {
                    assert(self@.variants[i as int] is Complex);
                    return true;
                },
                EnumKind::Simple(_) => {},
            }
            i += 1;
        }
        false
    }
}

/// A field name that has a type in `entries` is the name of one of them.
pub proof fn lemma_field_value_some(entries: Seq<(Text, Text)>, name: Text)
    requires
        field_value(entries, name) is Some,
    ensures
        exists|i: int| 0 <= i < entries.len() && (#[trigger] entries[i]).0 == name,
    decreases entries.len(),
{
    if entries.last().0 == name {
        assert(entries[entries.len() - 1].0 == name);
    } else {
        lemma_field_value_some(entries.drop_last(), name);
        let i = choose|i: int|
            0 <= i < entries.drop_last().len() && (#[trigger] entries.drop_last()[i]).0 == name;
        assert(entries[i].0 == name);
    }
}

/// Whether two optional strings are both absent or hold the same text.
pub fn same_optional_text(a: &Option<String>, b: &Option<String>) -> (r: bool)
    ensures
        r == (a.deep_view() == b.deep_view()),
{
    match (a, b) {
        (None, None) => true,
        (Some(x), Some(y)) => same_string(x, y),
        _ => false,
    }
}

/// The type that `entries` gives for the field `name`.
pub fn get_field<'a>(entries: &'a Vec<(String, String)>, name: &String) -> (r: Option<&'a String>)
    ensures
        r.deep_view() == field_value(entries.deep_view(), name@),
{
    let mut i: usize = entries.len();
    assert(entries.deep_view().take(i as int) =~= entries.deep_view());
    while i > 0
        invariant
            i <= entries.len(),
            field_value(entries.deep_view(), name@) == field_value(
                entries.deep_view().take(i as int),
                name@,
            ),
        decreases i,
    {
        let ghost prefix = entries.deep_view().take(i as int);
        assert(prefix.last() == entries.deep_view()[i - 1]);
        assert(prefix.drop_last() =~= entries.deep_view().take(i - 1));
        if same_string(&entries[i - 1].0, name) {
            return Some(&entries[i - 1].1);
        }
        i -= 1;
    }
    None
}

/// Whether every field name of `a` has in `b` the type that it has in `a`.
fn fields_agree(a: &Vec<(String, String)>, b: &Vec<(String, String)>) -> (r: bool)
    ensures
        r == forall|i: int|
            0 <= i < a.len() ==> field_value(a.deep_view(), (#[trigger] a.deep_view()[i]).0)
                == field_value(b.deep_view(), a.deep_view()[i].0),
{
    let mut i: usize = 0;
    while i < a.len()
        invariant
            i <= a.len(),
            forall|k: int|
                0 <= k < i ==> field_value(a.deep_view(), (#[trigger] a.deep_view()[k]).0)
                    == field_value(b.deep_view(), a.deep_view()[k].0),
        decreases a.len() - i,
    {
        let in_a = get_field(a, &a[i].0);
        let in_b = get_field(b, &a[i].0);
        assert(a.deep_view()[i as int].0 == a[i as int].0@);
        let same = match (in_a, in_b) {
            (None, None) => true,
            (Some(x), Some(y)) => same_string(x, y),
            _ => false,
        };
        if !same {
            return false;
        }
        i += 1;
    }
    true
}

/// Whether two lists of fields write down the same mapping.
pub fn same_fields(a: &Vec<(String, String)>, b: &Vec<(String, String)>) -> (r: bool)
    ensures
        r == (fields_map(a.deep_view()) == fields_map(b.deep_view())),
{
    let forth = fields_agree(a, b);
    let back = fields_agree(b, a);
    let ghost x = a.deep_view();
    let ghost y = b.deep_view();
    proof {
        if forth && back {
            assert forall|name: Text| field_value(x, name) == field_value(y, name) by {
                if field_value(x, name) is Some {
                    lemma_field_value_some(x, name);
                    let i = choose|i: int| 0 <= i < x.len() && (#[trigger] x[i]).0 == name;
                    assert(field_value(x, x[i].0) == field_value(y, x[i].0));
                } else if field_value(y, name) is Some {
                    lemma_field_value_some(y, name);
                    let j = choose|j: int| 0 <= j < y.len() && (#[trigger] y[j]).0 == name;
                    assert(field_value(y, y[j].0) == field_value(x, y[j].0));
                }
            }
            assert(fields_map(x) =~= fields_map(y));
        } else {
            let name = if !forth {
                let i = choose|i: int|
                    0 <= i < x.len() && field_value(x, (#[trigger] x[i]).0) != field_value(
                        y,
                        x[i].0,
                    );
                x[i].0
            } else {
                let j = choose|j: int|
                    0 <= j < y.len() && field_value(y, (#[trigger] y[j]).0) != field_value(
                        x,
                        y[j].0,
                    );
                y[j].0
            };
            assert(field_value(x, name) != field_value(y, name));
            if fields_map(x) == fields_map(y) {
                assert(fields_map(x).dom().contains(name) == fields_map(y).dom().contains(name));
                assert(fields_map(x)[name] == fields_map(y)[name]);
                assert(false);
            }
        }
    }
    forth && back
}

impl PartialEq for EnumVariantValue {
    fn eq(&self, other: &Self) -> (r: bool) {
        match (self, other) {
            (EnumVariantValue::Single(a), EnumVariantValue::Single(b)) => same_string(a, b),
            (EnumVariantValue::Multiple(a), EnumVariantValue::Multiple(b)) => same_fields(a, b),
            _ => false,
        }
    }
}

impl PartialEqSpecImpl for EnumVariantValue {
    open spec fn obeys_eq_spec() -> bool {
        true
    }

    open spec fn eq_spec(&self, other: &Self) -> bool {
        self@ == other@
    }
}

impl PartialEq for EnumVariant {
    fn eq(&self, other: &Self) -> (r: bool) {
        same_string(&self.id, &other.id)
            && same_optional_text(&self.description, &other.description)
            && self.value == other.value
            && same_optional_text(&self.target, &other.target)
            && same_optional_text(&self.target_field, &other.target_field)
    }
}

impl PartialEqSpecImpl for EnumVariant {
    open spec fn obeys_eq_spec() -> bool {
        true
    }

    open spec fn eq_spec(&self, other: &Self) -> bool {
        self@ == other@
    }
}

impl PartialEq for EnumKind {
    fn eq(&self, other: &Self) -> (r: bool) {
        match (self, other) {
            (EnumKind::Simple(a), EnumKind::Simple(b)) => same_string(a, b),
            (EnumKind::Complex(a), EnumKind::Complex(b)) => *a == *b,
            _ => false,
        }
    }
}

impl PartialEqSpecImpl for EnumKind {
    open spec fn obeys_eq_spec() -> bool {
        true
    }

    open spec fn eq_spec(&self, other: &Self) -> bool {
        self@ == other@
    }
}

} // verus!
