use vstd::prelude::*;

use crate::strutil::str_eq;

verus! {

/// The closed set of types a program value can have.
#[derive(Copy, Clone, PartialEq, Eq, Structural, Debug)]
pub enum Type {
    Float,
    Void,
}

impl Type {
    /// Which type a type name denotes: only the literal names `float` and
    /// `void` are recognised.
    pub open spec fn spec_from_name(name: Seq<char>) -> Option<Type> {
        if name == "float"@ {
            Some(Type::Float)
        } else if name == "void"@ {
            Some(Type::Void)
        } else {
            None
        }
    }

    /// Resolve a type name; any name other than `float` or `void` is rejected.
    pub fn from_name(name: &str) -> (r: Option<Type>)
        ensures
            r == Type::spec_from_name(name@),
    {
        if str_eq(name, "float") {
            Some(Type::Float)
        } else if str_eq(name, "void") {
            Some(Type::Void)
        } else {
            None
        }
    }
}

} // verus!
