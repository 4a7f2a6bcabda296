//! What makes a class fit for rendering: it is well formed, its entries
//! can be read for their bounds, and it refers to an error enumeration that
//! the document holds where it has a validator.
use crate::number::{parse_number, parsed_int};
use crate::text::Text;
use crate::udl::class::{Class, ClassView, Property, PropertyKey, PropertyView};
use crate::udl::enums::{Enum, EnumView};
use crate::udl::generator::optional_enum;
use crate::udl::utils::{limit_bounds, parse_limit};
use vstd::prelude::*;

verus! {

/// The constraint that reports a value below its minimum.
pub open spec fn min_tag() -> Text {
    "limit:min"@
}

/// The constraint that reports a value above its maximum.
pub open spec fn max_tag() -> Text {
    "limit:max"@
}

/// The bounds `(min, max)` that the entry `key: value` sets, with -1 for a
/// bound that is absent; `None` where the value cannot be read. A `limit`
/// sets the bounds of its range, a `min` its number as the minimum, a `max`
/// its number as the maximum; no other key sets a bound.
pub open spec fn entry_bounds(key: PropertyKey, value: Text) -> Option<(int, int)> {
    match key {
        PropertyKey::Limit => match limit_bounds(value) {
            Some(bounds) => Some((bounds.0, bounds.1)),
            None => None,
        },
        PropertyKey::Min => match parsed_int(value) {
            Some(min) => Some((min, -1)),
            None => None,
        },
        PropertyKey::Max => match parsed_int(value) {
            Some(max) => Some((-1, max)),
            None => None,
        },
        _ => Some((-1, -1)),
    }
}

/// Every entry of `entries` can be read for its bounds.
pub open spec fn readable_entries(entries: Seq<(PropertyKey, Text)>) -> bool {
    forall|i: int|
        0 <= i < entries.len() ==> entry_bounds(
            (#[trigger] entries[i]).0,
            entries[i].1,
        ) is Some
}

/// Every entry of the property can be read for its bounds.
pub open spec fn readable_property(property: PropertyView) -> bool {
    match property {
        PropertyView::Type(_) => true,
        PropertyView::Mapping(entries) => readable_entries(entries),
    }
}

/// Every entry of every property of `class` can be read for its bounds.
pub open spec fn all_readable(class: ClassView) -> bool {
    forall|i: int|
        0 <= i < class.properties.len() ==> readable_property((#[trigger] class.properties[i]).1)
}

/// The classes that the backends render: well formed, with entries
/// that can be read for their bounds and, where the class has a validator,
/// with a reference to an error enumeration that the document holds.
pub open spec fn class_accepted(class: ClassView, error_enum: Option<EnumView>) -> bool {
    &&& class.well_formed()
    &&& class.has_validator() ==> class.error is Some && error_enum is Some
    &&& forall|i: int|
        0 <= i < class.properties.len() ==> readable_property((#[trigger] class.properties[i]).1)
}

/// The bounds `(min, max)` that the entry `key: value` sets.
pub fn bounds_of(key: &PropertyKey, value: &String) -> (r: Option<(isize, isize)>)
    ensures
        match r {
            Some(b) => entry_bounds(*key, value@) == Some((b.0 as int, b.1 as int)),
            None => entry_bounds(*key, value@) is None,
        },
{
    match key {
        PropertyKey::Limit => match parse_limit(value.as_str()) {
            Some(bounds) => Some((bounds.0, bounds.1)),
            None => None,
        },
        PropertyKey::Min => match parse_number(value.as_str()) {
            Some(min) => Some((min, -1)),
            None => None,
        },
        PropertyKey::Max => match parse_number(value.as_str()) {
            Some(max) => Some((-1, max)),
            None => None,
        },
        _ => Some((-1, -1)),
    }
}

/// Why the backends do not render a class.
#[derive(Debug, Clone, Copy, PartialEq, Eq)]
pub enum ClassDefect {
    /// The class is not well formed: a property name or a key of a property
    /// stands twice, or a property written as entries has no type.
    Malformed,
    /// An entry cannot be read for its bounds: a `limit` that is no range
    /// constraint, or a `min` or `max` that is no number.
    UnreadableEntry { property: usize, entry: usize },
    /// The class has a validator and refers to no error enumeration.
    MissingErrorReference,
    /// The class has a validator and refers to an error enumeration that
    /// the document does not hold.
    UnknownErrorEnum,
}

/// The entry `entry` of the property `property` of `class` cannot be read
/// for its bounds.
pub open spec fn unreadable_at(class: ClassView, property: int, entry: int) -> bool {
    &&& 0 <= property < class.properties.len()
    &&& class.properties[property].1 matches PropertyView::Mapping(entries)
    &&& 0 <= entry < entries.len()
    &&& entry_bounds(entries[entry].0, entries[entry].1) is None
}

/// The first entry of `entries` that cannot be read for its bounds.
fn first_unreadable(entries: &Vec<(PropertyKey, String)>) -> (r: Option<usize>)
    ensures
        r is None <==> readable_entries(
            entries@.map_values(|e: (PropertyKey, String)| (e.0, e.1@)),
        ),
        r matches Some(at) ==> {
            let model = entries@.map_values(|e: (PropertyKey, String)| (e.0, e.1@));
            &&& at < entries.len()
            &&& entry_bounds(model[at as int].0, model[at as int].1) is None
            &&& forall|k: int|
                0 <= k < at ==> entry_bounds((#[trigger] model[k]).0, model[k].1) is Some
        },
{
    let ghost model = entries@.map_values(|e: (PropertyKey, String)| (e.0, e.1@));
    let mut at: usize = 0;
    while at < entries.len()
        invariant
            at <= entries.len(),
            model == entries@.map_values(|e: (PropertyKey, String)| (e.0, e.1@)),
            forall|k: int|
                0 <= k < at ==> entry_bounds((#[trigger] model[k]).0, model[k].1) is Some,
        decreases entries.len() - at,
    {
        assert(model[at as int] == (entries[at as int].0, entries[at as int].1@));
        if bounds_of(&entries[at].0, &entries[at].1).is_none() {
            return Some(at);
        }
        at += 1;
    }
    None
}

/// Why the backends do not render `class`; `None` where they do.
/// That the class is not well formed comes first, then the first entry
/// that cannot be read, then what is wrong with the reference to the error
/// enumeration.
pub fn class_defect(class: &Class, error_enum: Option<&Enum>) -> (r: Option<ClassDefect>)
    ensures
        match r {
            None => class_accepted(class@, optional_enum(error_enum)),
            Some(ClassDefect::Malformed) => !class@.well_formed(),
            Some(ClassDefect::UnreadableEntry { property, entry }) => {
                &&& class@.well_formed()
                &&& unreadable_at(class@, property as int, entry as int)
                &&& forall|p: int, e: int|
                    p < property || (p == property && e < entry) ==> !#[trigger] unreadable_at(
                        class@,
                        p,
                        e,
                    )
            },
            Some(ClassDefect::MissingErrorReference) => {
                &&& class@.well_formed()
                &&& all_readable(class@)
                &&& class@.has_validator()
                &&& class@.error is None
            },
            Some(ClassDefect::UnknownErrorEnum) => {
                &&& class@.well_formed()
                &&& all_readable(class@)
                &&& class@.has_validator()
                &&& class@.error is Some
                &&& error_enum is None
            },
        },
{
    if !class.is_well_formed() {
        return Some(ClassDefect::Malformed);
    }
    let mut property: usize = 0;
    while property < class.properties.len()
        invariant
            property <= class.properties.len(),
            class@.well_formed(),
            forall|p: int|
                0 <= p < property ==> readable_property((#[trigger] class@.properties[p]).1),
        decreases class.properties.len() - property,
    {
        match &class.properties[property].1 {
            Property::Type(_) => {},
            Property::Mapping(entries) => {
                match first_unreadable(entries) {
                    Some(entry) => {
                        assert forall|p: int, e: int|
                            p < property || (p == property && e
                                < entry) implies !#[trigger] unreadable_at(class@, p, e) by {
                            if 0 <= p < property {
                                assert(readable_property(class@.properties[p].1));
                            }
                        }
                        return Some(ClassDefect::UnreadableEntry { property, entry });
                    },
                    None => {},
                }
            },
        }
        property += 1;
    }
    if class.has_validator() {
        if class.error.is_none() {
            return Some(ClassDefect::MissingErrorReference);
        }
        if error_enum.is_none() {
            return Some(ClassDefect::UnknownErrorEnum);
        }
    }
    None
}

} // verus!
