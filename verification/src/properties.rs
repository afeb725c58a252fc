//! Custom properties authored on map objects.

use vstd::prelude::*;
use crate::scalar::FloatBits;

verus! {

/// The value of one custom property.
#[derive(Debug, PartialEq)]
pub enum PropertyValue {
    BoolValue(bool),
    FloatValue(FloatBits),
    IntValue(i32),
    ColorValue { alpha: u8, red: u8, green: u8, blue: u8 },
    StringValue(String),
    FileValue(String),
    ObjectValue(u32),
    ClassValue { property_type: String, properties: Vec<Property> },
}

/// A named custom property.
#[derive(Debug, PartialEq)]
pub struct Property {
    pub name: String,
    pub value: PropertyValue,
}

/// The index of the first property called `name`, if there is one.
pub open spec fn first_named(properties: Seq<Property>, name: Seq<char>) -> Option<int>
    decreases properties.len(),
{
    if properties.len() == 0 {
        None
    } else if properties[0].name@ == name {
        Some(0)
    } else {
        match first_named(properties.drop_first(), name) {
            Some(i) => Some(i + 1),
            None => None,
        }
    }
}

/// The value that a property list gives to `name`: that of the first property
/// with that name.
pub open spec fn property_value(properties: Seq<Property>, name: Seq<char>) -> Option<
    PropertyValue,
> {
    match first_named(properties, name) {
        Some(i) => Some(properties[i].value),
        None => None,
    }
}

/// `first_named` returns the least index with the name, and `None` exactly
/// when no property has it.
pub proof fn lemma_first_named(properties: Seq<Property>, name: Seq<char>)
    ensures
        match first_named(properties, name) {
            Some(i) => 0 <= i < properties.len() && properties[i].name@ == name && forall|j: int|
                0 <= j < i ==> properties[j].name@ != name,
            None => forall|j: int| 0 <= j < properties.len() ==> properties[j].name@ != name,
        },
    decreases properties.len(),
{
    if properties.len() != 0 && properties[0].name@ != name {
        let rest = properties.drop_first();
        lemma_first_named(rest, name);
        match first_named(rest, name) {
            Some(i) => {
                assert forall|j: int| 0 <= j < i + 1 implies properties[j].name@ != name by {
                    if j > 0 {
                        assert(properties[j] == rest[j - 1]);
                    }
                }
            },
            None => {
                assert forall|j: int| 0 <= j < properties.len() implies properties[j].name@
                    != name by {
                    if j > 0 {
                        assert(properties[j] == rest[j - 1]);
                    }
                }
            },
        }
    }
}

/// Any index that carries the name and has none before it is the one
/// `first_named` returns.
pub proof fn lemma_first_named_is(properties: Seq<Property>, name: Seq<char>, i: int)
    requires
        0 <= i < properties.len(),
        properties[i].name@ == name,
        forall|j: int| 0 <= j < i ==> properties[j].name@ != name,
    ensures
        first_named(properties, name) == Some(i),
{
    lemma_first_named(properties, name);
}

/// Looks a property up by name.
pub fn find_property<'a>(properties: &'a Vec<Property>, name: &str) -> (found: Option<
    &'a PropertyValue,
>)
    ensures
        match found {
            Some(v) => property_value(properties@, name@) == Some(*v),
            None => property_value(properties@, name@) is None,
        },
{
    let key = name.to_owned();
    let mut i: usize = 0;
    while i < properties.len()
        invariant
            i <= properties.len(),
            key@ == name@,
            forall|j: int| 0 <= j < i ==> properties@[j].name@ != name@,
        decreases properties.len() - i,
    {
        if properties[i].name == key {
            proof {
                lemma_first_named_is(properties@, name@, i as int);
            }
            return Some(&properties[i].value);
        }
        i += 1;
    }
    proof {
        lemma_first_named(properties@, name@);
    }
    None
}

} // verus!
