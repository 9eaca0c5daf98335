//! The contract of a callable and the closure-backed implementation of it.

use vstd::prelude::*;
use crate::function::arg::Arg;
use crate::utils::error::FunctionError;
use crate::variable::var::Variable;
use crate::variable::var_type::VariableType;

verus! {

/// Mathematical value of an [`Arg`].
pub struct ArgView {
    pub name: Seq<char>,
    pub ty: VariableType,
}

impl View for Arg {
    type V = ArgView;

    open spec fn view(&self) -> ArgView {
        ArgView { name: self.name@, ty: self.ty }
    }
}

/// The values of a sequence of arguments.
pub open spec fn arg_views(s: Seq<Arg>) -> Seq<ArgView> {
    s.map_values(|a: Arg| a@)
}

/// The value of an optional argument.
pub open spec fn arg_view_of(a: Option<Arg>) -> Option<ArgView> {
    match a {
        Some(a) => Some(a@),
        None => None,
    }
}

/// A named callable with a typed signature. `O` is what a call may_return.
pub trait Function<O: Send + Sync>: Send + Sync {
    /// The name under which the function is found.
    spec fn spec_name(&self) -> Seq<char>;

    /// The declared inputs, in order.
    spec fn spec_inputs(&self) -> Seq<ArgView>;

    /// The declared output, if the function may_return a value.
    spec fn spec_output(&self) -> Option<ArgView>;

    /// Whether a call with `args` may return `out`.
    spec fn may_return(&self, args: &[Variable], out: O) -> bool;

    fn name(&self) -> (r: String)
        ensures
            r@ == self.spec_name(),
    ;

    fn inputs(&self) -> (r: Vec<Arg>)
        ensures
            arg_views(r@) == self.spec_inputs(),
    ;

    fn output(&self) -> (r: Option<Arg>)
        ensures
            arg_view_of(r) == self.spec_output(),
    ;

    fn call(&self, args: &[Variable]) -> (out: O)
        ensures
            self.may_return(args, out),
    ;
}

/// A function of any implementation, as the tables of the engine hold it.
#[verifier::reject_recursive_types(O)]
pub struct FunctionBox<O: Send + Sync> {
    pub function: Box<dyn Function<O>>,
}

impl<O: Send + Sync> FunctionBox<O> {
    pub open spec fn spec_name(&self) -> Seq<char> {
        self.function.spec_name()
    }

    pub open spec fn spec_inputs(&self) -> Seq<ArgView> {
        self.function.spec_inputs()
    }

    pub open spec fn spec_output(&self) -> Option<ArgView> {
        self.function.spec_output()
    }

    pub open spec fn may_return(&self, args: &[Variable], out: O) -> bool {
        self.function.may_return(args, out)
    }

    pub fn name(&self) -> (r: String)
        ensures
            r@ == self.spec_name(),
    {
        self.function.name()
    }

    pub fn inputs(&self) -> (r: Vec<Arg>)
        ensures
            arg_views(r@) == self.spec_inputs(),
    {
        self.function.inputs()
    }

    pub fn output(&self) -> (r: Option<Arg>)
        ensures
            arg_view_of(r) == self.spec_output(),
    {
        self.function.output()
    }

    pub fn call(&self, args: &[Variable]) -> (out: O)
        ensures
            self.may_return(args, out),
    {
        self.function.call(args)
    }
}

/// The names of the functions of a table, in order.
pub open spec fn function_names<O: Send + Sync>(fs: Seq<FunctionBox<O>>) -> Seq<Seq<char>> {
    fs.map_values(|f: FunctionBox<O>| f.spec_name())
}

/// The result of calling a [`DynamicFunction`]: the value, if any, or the failure of
/// the call.
pub type FunctionOutput = Result<Option<Variable>, FunctionError>;

/// A function whose body is a closure: the bridge by which a manager offers
/// a callable of a plugin to the engine.
pub struct DynamicFunction<F: Fn(&[Variable]) -> FunctionOutput + Send + Sync> {
    name: String,
    inputs: Vec<Arg>,
    output: Option<Arg>,
    ptr: F,
}

impl<F: Fn(&[Variable]) -> FunctionOutput + Send + Sync> DynamicFunction<F> {
    #[verifier::type_invariant]
    spec fn callable(self) -> bool {
        forall|args: &[Variable]| self.ptr.requires((args,))
    }

    /// The function `name` with the given signature, which calls `ptr`. The
    /// closure must accept every list of arguments.
    pub fn new(name: &str, inputs: Vec<Arg>, output: Option<Arg>, ptr: F) -> (r: Self)
        requires
            forall|args: &[Variable]| ptr.requires((args,)),
        ensures
            r.spec_name() == name@,
            r.spec_inputs() == arg_views(inputs@),
            r.spec_output() == arg_view_of(output),
            forall|args: &[Variable], out: FunctionOutput|
                r.may_return(args, out) == ptr.ensures((args,), out),
    {
        DynamicFunction { name: name.to_owned(), inputs, output, ptr }
    }
}

fn clone_args(args: &Vec<Arg>) -> (r: Vec<Arg>)
    ensures
        arg_views(r@) == arg_views(args@),
{
    let mut out: Vec<Arg> = Vec::new();
    let mut i: usize = 0;
    while i < args.len()
        invariant
            i <= args.len(),
            out@.len() == i,
            forall|k: int| 0 <= k < i ==> out@[k]@ == args@[k]@,
        decreases args.len() - i,
    {
        out.push(args[i].clone());
        i = i + 1;
    }
    assert(arg_views(out@) =~= arg_views(args@));
    out
}

impl<F: Fn(&[Variable]) -> FunctionOutput + Send + Sync> Function<FunctionOutput> for DynamicFunction<F> {
    closed spec fn spec_name(&self) -> Seq<char> {
        self.name@
    }

    closed spec fn spec_inputs(&self) -> Seq<ArgView> {
        arg_views(self.inputs@)
    }

    closed spec fn spec_output(&self) -> Option<ArgView> {
        arg_view_of(self.output)
    }

    closed spec fn may_return(&self, args: &[Variable], out: FunctionOutput) -> bool {
        self.ptr.ensures((args,), out)
    }

    fn name(&self) -> (r: String) {
        self.name.clone()
    }

    fn inputs(&self) -> (r: Vec<Arg>) {
        clone_args(&self.inputs)
    }

    fn output(&self) -> (r: Option<Arg>) {
        match &self.output {
            Some(a) => Some(a.clone()),
            None => None,
        }
    }

    fn call(&self, args: &[Variable]) -> (out: FunctionOutput) {
        proof {
            use_type_invariant(self);
        }
        (self.ptr)(args)
    }
}

} // verus!
