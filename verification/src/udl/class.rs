//! Record types of a document: a class with its properties, each a bare
//! type or a set of keyed entries (type, description, validators).
use crate::text::{same_string, Text};
use vstd::prelude::*;
use vstd::std_specs::cmp::PartialEqSpecImpl;

verus! {

/// A record type. `properties` maps each property name to its
/// declaration, in the order of the document; `error` names the enumeration
/// whose variants report violated constraints.
#[derive(Debug, Clone)]
pub struct Class {
    pub id: String,
    pub description: Option<String>,
    pub immutable: Option<bool>,
    pub error: Option<String>,
    pub properties: Vec<(String, Property)>,
}

/// The declaration of a property: its type alone, or entries by key, in the
/// order of the document.
#[derive(Debug, Clone)]
pub enum Property {
    Type(String),
    Mapping(Vec<(PropertyKey, String)>),
}

/// The keys that an entry of a property can have.
#[derive(Debug, Clone, Copy, Hash, PartialEq, Eq, Structural)]
pub enum PropertyKey {
    Description,
    Type,
    Format,
    Limit,
    Min,
    Max,
    Private,
    Default,
}

/// The model of a [`Property`].
pub enum PropertyView {
    Type(Text),
    Mapping(Seq<(PropertyKey, Text)>),
}

/// The model of a [`Class`].
pub struct ClassView {
    pub id: Text,
    pub description: Option<Text>,
    pub immutable: Option<bool>,
    pub error: Option<Text>,
    pub properties: Seq<(Text, PropertyView)>,
}

impl View for Property {
    type V = PropertyView;

    open spec fn view(&self) -> PropertyView {
        match self {
            Property::Type(ty) => PropertyView::Type(ty@),
            Property::Mapping(entries) => PropertyView::Mapping(
                entries@.map_values(|e: (PropertyKey, String)| (e.0, e.1@)),
            ),
        }
    }
}

impl View for Class {
    type V = ClassView;

    open spec fn view(&self) -> ClassView {
        ClassView {
            id: self.id@,
            description: self.description.deep_view(),
            immutable: self.immutable,
            error: self.error.deep_view(),
            properties: self.properties@.map_values(|p: (String, Property)| (p.0@, p.1@)),
        }
    }
}

/// The value that `entries` hold under `key`: that of the first entry with
/// this key.
pub open spec fn entry_value(entries: Seq<(PropertyKey, Text)>, key: PropertyKey) -> Option<Text>
    decreases entries.len(),
{
    if entries.len() == 0 {
        None
    } else if entries[0].0 == key {
        Some(entries[0].1)
    } else {
        entry_value(entries.skip(1), key)
    }
}

/// No key stands twice in `entries`.
pub open spec fn distinct_keys(entries: Seq<(PropertyKey, Text)>) -> bool {
    forall|i: int, j: int|
        0 <= i < j < entries.len() ==> (#[trigger] entries[i]).0 != (#[trigger] entries[j]).0
}

/// Some entry of `entries` stands under a validator key.
pub open spec fn any_validator(entries: Seq<(PropertyKey, Text)>) -> bool {
    exists|i: int| 0 <= i < entries.len() && (#[trigger] entries[i]).0.is_validator()
}

impl PropertyKey {
    /// The key is one of the validators: `limit`, `format`, `default`, `min`
    /// and `max`.
    pub open spec fn is_validator(self) -> bool {
        self is Limit || self is Format || self is Default || self is Min || self is Max
    }

    /// Whether the key is one of the validators.
    pub fn validates(&self) -> (r: bool)
        ensures
            r == self.is_validator(),
    {
        match self {
            PropertyKey::Limit
            | PropertyKey::Format
            | PropertyKey::Default
            | PropertyKey::Min
            | PropertyKey::Max => true,
            _ => false,
        }
    }
}

impl PropertyView {
    /// The type string of the property, as the document writes it.
    pub open spec fn raw_type(self) -> Option<Text> {
        match self {
            PropertyView::Type(ty) => Some(ty),
            PropertyView::Mapping(entries) => entry_value(entries, PropertyKey::Type),
        }
    }

    /// The description of the property, if it has one.
    pub open spec fn description(self) -> Option<Text> {
        match self {
            PropertyView::Type(_) => None,
            PropertyView::Mapping(entries) => entry_value(entries, PropertyKey::Description),
        }
    }

    /// The property is marked private: its `private` entry is `true`.
    pub open spec fn is_private(self) -> bool {
        match self {
            PropertyView::Type(_) => false,
            PropertyView::Mapping(entries) => entry_value(entries, PropertyKey::Private) == Some(
                "true"@,
            ),
        }
    }

    /// The property has an entry under a validator key.
    pub open spec fn has_validator(self) -> bool {
        match self {
            PropertyView::Type(_) => false,
            PropertyView::Mapping(entries) => any_validator(entries),
        }
    }

    /// A property written as entries has no key twice, and has a type.
    pub open spec fn well_formed(self) -> bool {
        match self {
            PropertyView::Type(_) => true,
            PropertyView::Mapping(entries) => distinct_keys(entries) && entry_value(
                entries,
                PropertyKey::Type,
            ) is Some,
        }
    }
}

impl ClassView {
    /// Some property of the class has a validator.
    pub open spec fn has_validator(self) -> bool {
        exists|i: int|
            0 <= i < self.properties.len() && (#[trigger] self.properties[i]).1.has_validator()
    }

    /// The class is built through a factory that can fail: it has a
    /// validator, and it names an error enumeration.
    pub open spec fn is_fallible(self) -> bool {
        self.has_validator() && self.error is Some
    }

    /// No property name stands twice, and every property is well formed.
    pub open spec fn well_formed(self) -> bool {
        &&& forall|i: int, j: int|
            0 <= i < j < self.properties.len() ==> (#[trigger] self.properties[i]).0 != (
            #[trigger] self.properties[j]).0
        &&& forall|i: int|
            0 <= i < self.properties.len() ==> (#[trigger] self.properties[i]).1.well_formed()
    }
}

/// The value that `entries` hold under `key`.
pub fn get_entry<'a>(entries: &'a Vec<(PropertyKey, String)>, key: PropertyKey) -> (r: Option<
    &'a String,
>)
    ensures
        r.deep_view() == entry_value(
            entries@.map_values(|e: (PropertyKey, String)| (e.0, e.1@)),
            key,
        ),
{
    let ghost model = entries@.map_values(|e: (PropertyKey, String)| (e.0, e.1@));
    let mut i: usize = 0;
    assert(model.skip(0) =~= model);
    while i < entries.len()
        invariant
            i <= entries.len(),
            model == entries@.map_values(|e: (PropertyKey, String)| (e.0, e.1@)),
            entry_value(model, key) == entry_value(model.skip(i as int), key),
        decreases entries.len() - i,
    {
        assert(model.skip(i as int)[0] == model[i as int]);
        assert(model.skip(i as int).skip(1) =~= model.skip(i + 1));
        if entries[i].0 == key {
            return Some(&entries[i].1);
        }
        i += 1;
    }
    None
}

/// Whether no key stands twice in `entries`.
fn has_distinct_keys(entries: &Vec<(PropertyKey, String)>) -> (r: bool)
    ensures
        r == distinct_keys(entries@.map_values(|e: (PropertyKey, String)| (e.0, e.1@))),
{
    let ghost model = entries@.map_values(|e: (PropertyKey, String)| (e.0, e.1@));
    let mut j: usize = 0;
    while j < entries.len()
        invariant
            j <= entries.len(),
            model == entries@.map_values(|e: (PropertyKey, String)| (e.0, e.1@)),
            forall|a: int, b: int|
                0 <= a < b < j ==> (#[trigger] model[a]).0 != (#[trigger] model[b]).0,
        decreases entries.len() - j,
    {
        let mut i: usize = 0;
        while i < j
            invariant
                i <= j < entries.len(),
                model == entries@.map_values(|e: (PropertyKey, String)| (e.0, e.1@)),
                forall|a: int| 0 <= a < i ==> (#[trigger] model[a]).0 != model[j as int].0,
            decreases j - i,
        {
            if entries[i].0 == entries[j].0 {
                assert(model[i as int].0 == model[j as int].0);
                return false;
            }
            i += 1;
        }
        j += 1;
    }
    true
}

/// Two declarations say the same: they are the same bare type, or they
/// hold the same value under every key.
pub open spec fn same_property(a: PropertyView, b: PropertyView) -> bool {
    match (a, b) {
        (PropertyView::Type(x), PropertyView::Type(y)) => x == y,
        (PropertyView::Mapping(x), PropertyView::Mapping(y)) => forall|key: PropertyKey|
            #[trigger] entry_value(x, key) == entry_value(y, key),
        _ => false,
    }
}

/// Whether two lists of entries hold the same value under `key`.
fn same_entry(
    a: &Vec<(PropertyKey, String)>,
    b: &Vec<(PropertyKey, String)>,
    key: PropertyKey,
) -> (r: bool)
    ensures
        r == (entry_value(a@.map_values(|e: (PropertyKey, String)| (e.0, e.1@)), key)
            == entry_value(b@.map_values(|e: (PropertyKey, String)| (e.0, e.1@)), key)),
{
    match (get_entry(a, key), get_entry(b, key)) {
        (None, None) => true,
        (Some(x), Some(y)) => same_string(x, y),
        _ => false,
    }
}

impl PartialEq for Property {
    fn eq(&self, other: &Self) -> (r: bool) {
        match (self, other) {
            (Property::Type(a), Property::Type(b)) => same_string(a, b),
            (Property::Mapping(a), Property::Mapping(b)) => {
                let r = same_entry(a, b, PropertyKey::Description) && same_entry(
                    a,
                    b,
                    PropertyKey::Type,
                ) && same_entry(a, b, PropertyKey::Format) && same_entry(a, b, PropertyKey::Limit)
                    && same_entry(a, b, PropertyKey::Min) && same_entry(a, b, PropertyKey::Max)
                    && same_entry(a, b, PropertyKey::Private) && same_entry(
                    a,
                    b,
                    PropertyKey::Default,
                );
                proof {
                    let x = a@.map_values(|e: (PropertyKey, String)| (e.0, e.1@));
                    let y = b@.map_values(|e: (PropertyKey, String)| (e.0, e.1@));
                    if r {
                        assert forall|key: PropertyKey| #[trigger]
                            entry_value(x, key) == entry_value(y, key) by {
                            match key {
                                PropertyKey::Description => {},
                                PropertyKey::Type => {},
                                PropertyKey::Format => {},
                                PropertyKey::Limit => {},
                                PropertyKey::Min => {},
                                PropertyKey::Max => {},
                                PropertyKey::Private => {},
                                PropertyKey::Default => {},
                            }
                        }
                    }
                }
                r
            },
            _ => false,
        }
    }
}

impl PartialEqSpecImpl for Property {
    open spec fn obeys_eq_spec() -> bool {
        true
    }

    open spec fn eq_spec(&self, other: &Self) -> bool {
        same_property(self@, other@)
    }
}

impl Eq for Property {
}

impl Property {
    /// The type string of the property, as the document writes it.
    pub fn raw_type(&self) -> (r: Option<&String>)
        ensures
            r.deep_view() == self@.raw_type(),
    {
        match self {
            Property::Type(ty) => Some(ty),
            Property::Mapping(entries) => get_entry(entries, PropertyKey::Type),
        }
    }

    /// Whether the property has an entry under a validator key.
    pub fn has_validator(&self) -> (r: bool)
        ensures
            r == self@.has_validator(),
    {
        match self {
            Property::Type(_) => false,
            Property::Mapping(entries) => {
                let ghost model = entries@.map_values(|e: (PropertyKey, String)| (e.0, e.1@));
                let mut i: usize = 0;
                while i < entries.len()
                    invariant
                        i <= entries.len(),
                        self@ == PropertyView::Mapping(model),
                        model == entries@.map_values(|e: (PropertyKey, String)| (e.0, e.1@)),
                        forall|k: int| 0 <= k < i ==> !(#[trigger] model[k]).0.is_validator(),
                    decreases entries.len() - i,
                {
                    if entries[i].0.validates() {
                        assert(model[i as int].0.is_validator());
                        return true;
                    }
                    i += 1;
                }
                false
            },
        }
    }

    /// Whether the property is well formed.
    pub fn is_well_formed(&self) -> (r: bool)
        ensures
            r == self@.well_formed(),
    {
        match self {
            Property::Type(_) => true,
            Property::Mapping(entries) => has_distinct_keys(entries) && get_entry(
                entries,
                PropertyKey::Type,
            ).is_some(),
        }
    }
}

impl Class {
    /// Whether some property of the class has a validator.
    pub fn has_validator(&self) -> (r: bool)
        ensures
            r == self@.has_validator(),
    {
        let mut i: usize = 0;
        while i < self.properties.len()
            invariant
                i <= self.properties.len(),
                forall|k: int| 0 <= k < i ==> !(#[trigger] self@.properties[k]).1.has_validator(),
            decreases self.properties.len() - i,
        {
            if self.properties[i].1.has_validator() {
                assert(self@.properties[i as int].1.has_validator());
                return true;
            }
            i += 1;
        }
        false
    }

    /// Whether the class is well formed.
    pub fn is_well_formed(&self) -> (r: bool)
        ensures
            r == self@.well_formed(),
    {
        let mut j: usize = 0;
        while j < self.properties.len()
            invariant
                j <= self.properties.len(),
                forall|a: int, b: int|
                    0 <= a < b < j ==> (#[trigger] self@.properties[a]).0 != (
                    #[trigger] self@.properties[b]).0,
                forall|a: int| 0 <= a < j ==> (#[trigger] self@.properties[a]).1.well_formed(),
            decreases self.properties.len() - j,
        {
            if !self.properties[j].1.is_well_formed() {
                assert(!self@.properties[j as int].1.well_formed());
                return false;
            }
            let mut i: usize = 0;
            while i < j
                invariant
                    i <= j < self.properties.len(),
                    forall|a: int|
                        0 <= a < i ==> (#[trigger] self@.properties[a]).0
                            != self@.properties[j as int].0,
                decreases j - i,
            {
                if same_string(&self.properties[i].0, &self.properties[j].0) {
                    assert(self@.properties[i as int].0 == self@.properties[j as int].0);
                    return false;
                }
                i += 1;
            }
            j += 1;
        }
        true
    }
}

} // verus!
