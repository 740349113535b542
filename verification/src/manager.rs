//! What a front end has selected: a tool, and how the world is drawn.

use vstd::prelude::*;
use crate::variant::Variant;

verus! {

/// How the world is drawn.
#[derive(Clone, Copy, Debug, PartialEq, Eq, Structural)]
pub enum RenderMode {
    Normal,
    Heat,
}

/// A property of the world that a tool changes.
#[derive(Clone, Copy, Debug, PartialEq, Eq, Structural)]
pub enum Property {
    Temperature,
    COOL,
    Pressure,
    DelWall,
}

/// The tool in hand: one that paints a variant, or one that changes a
/// property.
#[derive(Clone, Copy, Debug, PartialEq, Eq, Structural)]
pub enum Tool {
    ElementTool(Variant),
    PropertyTool(Property),
}

/// The four letters under which a tool palette shows a property.
pub open spec fn label_of(property: Property) -> Seq<char> {
    match property {
        Property::Temperature => "HEAT"@,
        Property::COOL => "COOL"@,
        Property::Pressure => "PRSR"@,
        Property::DelWall => "DELW"@,
    }
}

impl Property {
    /// The four letters under which a tool palette shows the property.
    pub fn label(&self) -> (label: &'static str)
        ensures
            label@ == label_of(*self),
    {
        match self {
            Property::Temperature => "HEAT",
            Property::COOL => "COOL",
            Property::Pressure => "PRSR",
            Property::DelWall => "DELW",
        }
    }
}

impl Tool {
    /// The property that the tool changes, if it is a property tool.
    pub fn get_property(&self) -> (property: Option<Property>)
        ensures
            property == match *self {
                Tool::ElementTool(_) => None,
                Tool::PropertyTool(p) => Some(p),
            },
    {
        match self {
            Tool::ElementTool(_variant) => None,
            Tool::PropertyTool(property) => Some(*property),
        }
    }

    /// The variant that the tool paints, if it is an element tool.
    pub fn get_variant(&self) -> (variant: Option<Variant>)
        ensures
            variant == match *self {
                Tool::ElementTool(v) => Some(v),
                Tool::PropertyTool(_) => None,
            },
    {
        match self {
            Tool::ElementTool(variant) => Some(*variant),
            Tool::PropertyTool(_property) => None,
        }
    }
}

} // verus!
