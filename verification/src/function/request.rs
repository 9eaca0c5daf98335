//! A request: a function that the host expects every loaded plugin to
//! provide.

use vstd::prelude::*;
use crate::variable::var_type::VariableType;

verus! {

/// The name and the signature of a function that the host will call on
/// plugins.
#[derive(Debug, PartialEq, Eq)]
pub struct Request {
    pub name: String,
    pub inputs: Vec<VariableType>,
    pub output: Option<VariableType>,
}

impl Clone for Request {
    fn clone(&self) -> (r: Self)
        ensures
            r.name@ == self.name@,
            r.inputs@ == self.inputs@,
            r.output == self.output,
    {
        Request { name: self.name.clone(), inputs: self.inputs.clone(), output: self.output }
    }
}

impl Request {
    /// The request `name` with the given input types and output type.
    pub fn new(name: &str, inputs: Vec<VariableType>, output: Option<VariableType>) -> (r: Request)
        ensures
            r.name@ == name@,
            r.inputs@ == inputs@,
            r.output == output,
    {
        Request { name: name.to_owned(), inputs, output }
    }
}

} // verus!
