use vstd::prelude::*;

use crate::expressions::PropertyDefinition;
use crate::tokens::Token;

verus! {

/// What is known of a declared component: where it was declared, its id and its properties.
#[derive(Debug)]
pub struct ComponentMetadata {
    pub token: Token,
    pub id: u8,
    pub properties: Vec<PropertyDefinition>,
}

/// The declared components, each under its name.
pub struct Environment {
    pub components: Vec<(String, ComponentMetadata)>,
}

/// The position of the first of `ps`, from `k` on, whose name is `name`.
pub open spec fn property_from(ps: Seq<PropertyDefinition>, name: Seq<char>, k: int) -> Option<int>
    decreases ps.len() - k,
{
    if k < 0 || k >= ps.len() {
        None
    } else if ps[k].name.lexeme@ == name {
        Some(k)
    } else {
        property_from(ps, name, k + 1)
    }
}

/// The position of the first of `ps` whose name is `name`.
pub open spec fn property_position(ps: Seq<PropertyDefinition>, name: Seq<char>) -> Option<int> {
    property_from(ps, name, 0)
}

/// The position of the first component, from `k` on, named `name`.
pub open spec fn component_from(cs: Seq<(String, ComponentMetadata)>, name: Seq<char>, k: int) -> Option<
    int,
>
    decreases cs.len() - k,
{
    if k < 0 || k >= cs.len() {
        None
    } else if cs[k].0@ == name {
        Some(k)
    } else {
        component_from(cs, name, k + 1)
    }
}

/// The position of the first component named `name`.
pub open spec fn component_position(cs: Seq<(String, ComponentMetadata)>, name: Seq<char>) -> Option<
    int,
> {
    component_from(cs, name, 0)
}

impl Default for Environment {
    fn default() -> (r: Self)
        ensures
            r.components@ == Seq::<(String, ComponentMetadata)>::empty(),
    {
        Environment { components: Vec::new() }
    }
}

impl Environment {
    /// The definition of the property named `property_name` of the component named
    /// `component_name`: the first such component, and its first such property.
    pub fn get_property_definition(&self, component_name: String, property_name: String) -> (r:
        &PropertyDefinition)
        requires
            component_position(self.components@, component_name@) is Some,
            property_position(
                self.components@[component_position(
                    self.components@,
                    component_name@,
                ).unwrap()].1.properties@,
                property_name@,
            ) is Some,
        ensures
            ({
                let c = component_position(self.components@, component_name@).unwrap();
                let ps = self.components@[c].1.properties@;
                *r == ps[property_position(ps, property_name@).unwrap()]
            }),
    {
        let count = self.components.len();
        let mut c: usize = 0;
        while !self.components[c].0.eq(&component_name)
            invariant
                c < self.components@.len(),
                count == self.components@.len(),
                component_position(self.components@, component_name@) is Some,
                component_position(self.components@, component_name@) == component_from(
                    self.components@,
                    component_name@,
                    c as int,
                ),
            decreases self.components@.len() - c,
        {
            proof {
                assert(component_from(self.components@, component_name@, c + 1) is Some);
                assert(c + 1 < self.components@.len());
            }
            c += 1;
        }
        let properties = &self.components[c].1.properties;
        let property_count = properties.len();
        let mut p: usize = 0;
        while !properties[p].name.lexeme.eq(&property_name)
            invariant
                p < properties@.len(),
                property_count == properties@.len(),
                property_position(properties@, property_name@) is Some,
                property_position(properties@, property_name@) == property_from(
                    properties@,
                    property_name@,
                    p as int,
                ),
            decreases properties@.len() - p,
        {
            proof {
                assert(property_from(properties@, property_name@, p + 1) is Some);
                assert(p + 1 < properties@.len());
            }
            p += 1;
        }
        &properties[p]
    }
}

} // verus!
