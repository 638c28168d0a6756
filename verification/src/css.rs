//! The stylesheet data model: rules, selectors, declared values, and
//! specificity. A parsed stylesheet is an input to this library; lengths
//! are whole pixels.

use vstd::prelude::*;
use crate::strutil::str_eq;

verus! {

/// An RGBA color, each channel 0 to 255.
#[derive(PartialEq, Eq, Structural, Clone, Copy, Debug)]
pub struct Color {
    pub r: u8,
    pub g: u8,
    pub b: u8,
    pub a: u8,
}

/// The one length unit consumed by layout.
#[derive(PartialEq, Eq, Structural, Clone, Copy, Debug)]
pub enum Unit {
    Px,
}

/// A declared property value.
#[derive(Debug)]
pub enum Value {
    Keyword(String),
    Length(i64, Unit),
    ColorValue(Color),
}

impl Value {
    /// The pixel magnitude of a value: a length gives its number, anything
    /// else gives zero.
    pub open spec fn to_px_spec(&self) -> int {
        match self {
            Value::Length(n, _) => *n as int,
            _ => 0,
        }
    }

    pub fn to_px(&self) -> (r: i64)
        ensures
            r as int == self.to_px_spec(),
    {
        match self {
            Value::Length(n, Unit::Px) => *n,
            _ => 0,
        }
    }

    /// Whether the value is the keyword `auto`.
    pub open spec fn is_auto_spec(&self) -> bool {
        match self {
            Value::Keyword(s) => s@ == "auto"@,
            _ => false,
        }
    }

    pub fn is_auto(&self) -> (r: bool)
        ensures
            r == self.is_auto_spec(),
    {
        match self {
            Value::Keyword(s) => str_eq(s.as_str(), "auto"),
            _ => false,
        }
    }

    /// An owned copy equal to the value itself.
    pub fn duplicate(&self) -> (r: Value)
        ensures
            r == *self,
    {
        match self {
            Value::Keyword(s) => Value::Keyword(s.clone()),
            Value::Length(n, u) => Value::Length(*n, *u),
            Value::ColorValue(c) => Value::ColorValue(*c),
        }
    }
}

/// A simple selector: optional tag name, optional id, and class names.
/// Every absent component matches anything.
#[derive(Debug)]
pub struct SimpleSelector {
    pub tag_name: Option<String>,
    pub id: Option<String>,
    pub class: Vec<String>,
}

#[derive(Debug)]
pub enum Selector {
    Simple(SimpleSelector),
}

/// Specificity: id-match count, class-match count, tag-match count,
/// compared lexicographically; higher wins.
pub type Specificity = (usize, usize, usize);

impl Selector {
    pub open spec fn specificity_spec(&self) -> Specificity {
        match self {
            Selector::Simple(s) => (
                (if s.id is Some {
                    1usize
                } else {
                    0usize
                }),
                s.class@.len() as usize,
                (if s.tag_name is Some {
                    1usize
                } else {
                    0usize
                }),
            ),
        }
    }

    pub fn specificity(&self) -> (r: Specificity)
        ensures
            r == self.specificity_spec(),
    {
        match self {
            Selector::Simple(s) => {
                let a: usize = if s.id.is_some() {
                    1
                } else {
                    0
                };
                let b: usize = s.class.len();
                let c: usize = if s.tag_name.is_some() {
                    1
                } else {
                    0
                };
                (a, b, c)
            },
        }
    }
}

/// Ascending lexicographic order on specificities, with a strict variant.
pub open spec fn specificity_lt(a: Specificity, b: Specificity) -> bool {
    a.0 < b.0 || (a.0 == b.0 && (a.1 < b.1 || (a.1 == b.1 && a.2 < b.2)))
}

/// One property declaration inside a rule.
#[derive(Debug)]
pub struct Declaration {
    pub name: String,
    pub value: Value,
}

/// A rule: an ordered list of selectors and an ordered list of
/// declarations.
#[derive(Debug)]
pub struct Rule {
    pub selectors: Vec<Selector>,
    pub declarations: Vec<Declaration>,
}

/// An ordered list of rules.
#[derive(Debug)]
pub struct Stylesheet {
    pub rules: Vec<Rule>,
}

} // verus!
