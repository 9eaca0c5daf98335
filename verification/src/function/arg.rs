//! A named argument or result of a function.

use vstd::prelude::*;
use crate::variable::var_type::{code_name, VariableType};

verus! {

/// The name and the type of one argument.
#[derive(Debug, PartialEq, Eq)]
pub struct Arg {
    pub name: String,
    pub ty: VariableType,
}

impl Clone for Arg {
    fn clone(&self) -> (r: Self)
        ensures
            r.name@ == self.name@,
            r.ty == self.ty,
    {
        Arg { name: self.name.clone(), ty: self.ty }
    }
}

impl Arg {
    /// The argument `name` of type `ty`.
    pub fn new(name: &str, ty: VariableType) -> (r: Arg)
        ensures
            r.name@ == name@,
            r.ty == ty,
    {
        Arg { name: name.to_owned(), ty }
    }

    /// Structural equality: same name and same type.
    pub fn equals(&self, other: &Arg) -> (r: bool)
        ensures
            r == (self.name@ == other.name@ && self.ty == other.ty),
    {
        self.name == other.name && self.ty == other.ty
    }

    /// The text `name: type`.
    pub fn to_string(&self) -> (r: String)
        ensures
            r@ == self.name@ + seq![':', ' '] + code_name(self.ty),
    {
        proof {
            reveal_strlit(": ");
        }
        assert(": "@ =~= seq![':', ' ']);
        let mut out = self.name.clone();
        out.append(": ");
        out.append(self.ty.name());
        out
    }
}

impl Default for Arg {
    /// The argument `arg` of any type.
    fn default() -> (r: Arg)
        ensures
            r.name@ == "arg"@,
            r.ty == VariableType::Let,
    {
        Arg { name: "arg".to_owned(), ty: VariableType::Let }
    }
}

} // verus!
