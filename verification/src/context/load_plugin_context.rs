//! What a manager is given when a plugin is loaded.

use vstd::prelude::*;
use crate::function::function::{function_names, ArgView, FunctionBox};
use crate::function::request::Request;
use crate::info::Info;
use crate::plugin::{is_first_named, Plugin, Registry, Requests};
use crate::utils::error::{PluginRegisterFunctionError, RegisterRequestError};
use crate::variable::var_type::{type_fits, VariableType};

verus! {

/// The names of a list of requests, in order.
pub open spec fn request_names(requests: Seq<Request>) -> Seq<Seq<char>> {
    requests.map_values(|r: Request| r.name@)
}

/// The type of an optional argument.
pub open spec fn output_type(output: Option<ArgView>) -> Option<VariableType> {
    match output {
        Some(a) => Some(a.ty),
        None => None,
    }
}

/// Whether a function with the given inputs and output may answer the
/// request: each input type that the request declares is met by at least one
/// input of the function, in any order, and the outputs are of the same type
/// or both absent.
pub open spec fn signature_fits(
    request: Request,
    inputs: Seq<ArgView>,
    output: Option<ArgView>,
) -> bool {
    &&& forall|i: int|
        0 <= i < request.inputs@.len() ==> #[trigger] input_met(request.inputs@[i], inputs)
    &&& request.output == output_type(output)
}

/// Whether one of the inputs meets the declared type.
pub open spec fn input_met(declared: VariableType, inputs: Seq<ArgView>) -> bool {
    exists|j: int| 0 <= j < inputs.len() && type_fits(declared, #[trigger] inputs[j].ty)
}

/// Whether the function may answer the request.
pub open spec fn answers<O: Send + Sync>(f: FunctionBox<O>, request: Request) -> bool {
    f.spec_name() == request.name@ && signature_fits(request, f.spec_inputs(), f.spec_output())
}

/// Some function of the table may answer the request.
pub open spec fn answered<O: Send + Sync>(table: Seq<FunctionBox<O>>, request: Request) -> bool {
    exists|k: int| 0 <= k < table.len() && answers(#[trigger] table[k], request)
}

/// The table answers every request.
pub open spec fn covered<O: Send + Sync>(table: Seq<FunctionBox<O>>, requests: Seq<Request>) -> bool {
    forall|q: int| 0 <= q < requests.len() ==> answered(table, #[trigger] requests[q])
}

/// Every loaded plugin answers every request of the host.
pub open spec fn requests_answered<O: Send + Sync, I: Info>(
    plugins: Seq<Plugin<O, I>>,
    requests: Seq<Request>,
) -> bool {
    forall|p: int|
        0 <= p < plugins.len() && (#[trigger] plugins[p])@.is_loaded ==> covered(
            plugins[p].spec_requests(),
            requests,
        )
}

/// The handle by which a manager attaches the functions of the plugin that
/// is being loaded. It holds the two function tables of the plugin until the
/// hook returns.
#[verifier::reject_recursive_types(O)]
pub struct LoadPluginContext<'a, O: Send + Sync, I: Info> {
    pub(crate) plugin: &'a Plugin<O, I>,
    pub(crate) requests: &'a Requests,
    pub(crate) table: &'a mut Vec<FunctionBox<O>>,
    pub(crate) registry: &'a mut Registry<O>,
}

impl<'a, O: Send + Sync, I: Info> LoadPluginContext<'a, O, I> {
    /// The requests that the host has declared.
    pub open(crate) spec fn spec_requests(&self) -> Seq<Request> {
        self.requests@
    }

    /// The functions attached so far for the host's requests.
    pub open(crate) spec fn spec_table(&self) -> Seq<FunctionBox<O>> {
        self.table@
    }

    /// The functions attached so far for other plugins.
    pub open(crate) spec fn spec_registry(&self) -> Seq<FunctionBox<O>> {
        self.registry@
    }

    /// The record of the plugin that is being loaded.
    pub open(crate) spec fn spec_plugin(&self) -> Plugin<O, I> {
        *self.plugin
    }

    /// The record of the plugin that is being loaded. Its two function
    /// tables are with this context until the hook returns.
    pub fn plugin(&self) -> (r: &Plugin<O, I>)
        ensures
            *r == self.spec_plugin(),
    {
        self.plugin
    }

    /// The requests that the host has declared.
    pub fn requests(&self) -> (r: &Requests)
        ensures
            r@ == self.spec_requests(),
    {
        self.requests
    }

    /// The functions attached so far for the host's requests.
    pub fn registered_requests(&self) -> (r: &Vec<FunctionBox<O>>)
        ensures
            r@ == self.spec_table(),
    {
        &*self.table
    }

    /// Attaches the function by which the plugin answers the request of the
    /// same name.
    ///
    /// The first declared request of the function's name decides: the
    /// function is attached if its signature fits that request, and refused
    /// with `ArgumentsIncorrectly` if not. Without a request of that name the
    /// result is `NotFound`.
    pub fn register_request(&mut self, request: FunctionBox<O>) -> (r: Result<
        (),
        RegisterRequestError,
    >)
        ensures
            final(self).spec_requests() == old(self).spec_requests(),
            final(self).spec_registry() == old(self).spec_registry(),
            match r {
                Ok(_) => {
                    &&& exists|q: int|
                        #[trigger] is_first_named(
                            request_names(old(self).spec_requests()),
                            request.spec_name(),
                            q,
                        ) && answers(request, old(self).spec_requests()[q])
                    &&& final(self).spec_table() == old(self).spec_table().push(request)
                },
                Err(RegisterRequestError::NotFound) => {
                    &&& !request_names(old(self).spec_requests()).contains(request.spec_name())
                    &&& final(self).spec_table() == old(self).spec_table()
                },
                Err(RegisterRequestError::ArgumentsIncorrectly) => {
                    &&& exists|q: int|
                        #[trigger] is_first_named(
                            request_names(old(self).spec_requests()),
                            request.spec_name(),
                            q,
                        ) && !answers(request, old(self).spec_requests()[q])
                    &&& final(self).spec_table() == old(self).spec_table()
                },
            },
    {
        let name = request.name();
        match find_request(self.requests, name.as_str()) {
            None => Err(RegisterRequestError::NotFound),
            Some(q) => {
                let fits = function_answers(&request, &self.requests[q]);
                assert(is_first_named(
                    request_names(old(self).spec_requests()),
                    request.spec_name(),
                    q as int,
                ) && fits == answers(request, old(self).spec_requests()[q as int]));
                if fits {
                    self.table.push(request);
                    Ok(())
                } else {
                    Err(RegisterRequestError::ArgumentsIncorrectly)
                }
            },
        }
    }

    /// Attaches a function that the plugin offers to other plugins, unless
    /// one of that name is attached already.
    pub fn register_function(&mut self, function: FunctionBox<O>) -> (r: Result<
        (),
        PluginRegisterFunctionError,
    >)
        ensures
            final(self).spec_requests() == old(self).spec_requests(),
            final(self).spec_table() == old(self).spec_table(),
            match r {
                Ok(_) => {
                    &&& !function_names(old(self).spec_registry()).contains(function.spec_name())
                    &&& final(self).spec_registry() == old(self).spec_registry().push(function)
                },
                Err(PluginRegisterFunctionError::AlreadyExists(name)) => {
                    &&& name@ == function.spec_name()
                    &&& function_names(old(self).spec_registry()).contains(name@)
                    &&& final(self).spec_registry() == old(self).spec_registry()
                },
            },
    {
        let name = function.name();
        match crate::plugin::find_function(&*self.registry, name.as_str()) {
            Some(_) => Err(PluginRegisterFunctionError::AlreadyExists(name)),
            None => {
                self.registry.push(function);
                Ok(())
            },
        }
    }
}

/// The position of the first request called `name`.
pub fn find_request(requests: &Requests, name: &str) -> (r: Option<usize>)
    ensures
        match r {
            Some(q) => is_first_named(request_names(requests@), name@, q as int),
            None => !request_names(requests@).contains(name@),
        },
{
    let mut q: usize = 0;
    while q < requests.len()
        invariant
            q <= requests.len(),
            forall|j: int| 0 <= j < q ==> request_names(requests@)[j] != name@,
        decreases requests.len() - q,
    {
        if crate::utils::text::same_text(requests[q].name.as_str(), name) {
            return Some(q);
        }
        q = q + 1;
    }
    None
}

/// Whether some input of `inputs` meets the declared type.
fn some_input_fits(declared: &VariableType, inputs: &Vec<crate::function::arg::Arg>) -> (r: bool)
    ensures
        r == input_met(*declared, crate::function::function::arg_views(inputs@)),
{
    let ghost views = crate::function::function::arg_views(inputs@);
    let mut j: usize = 0;
    while j < inputs.len()
        invariant
            j <= inputs.len(),
            views == crate::function::function::arg_views(inputs@),
            forall|k: int| 0 <= k < j ==> !type_fits(*declared, #[trigger] views[k].ty),
        decreases inputs.len() - j,
    {
        if declared.fits(&inputs[j].ty) {
            assert(type_fits(*declared, views[j as int].ty));
            return true;
        }
        j = j + 1;
    }
    false
}

/// Whether the function may answer the request: same name, fitting
/// signature.
pub fn function_answers<O: Send + Sync>(f: &FunctionBox<O>, request: &Request) -> (r: bool)
    ensures
        r == answers(*f, *request),
{
    let name = f.name();
    if !(name == request.name) {
        return false;
    }
    let inputs = f.inputs();
    let output = f.output();
    let mut i: usize = 0;
    while i < request.inputs.len()
        invariant
            i <= request.inputs.len(),
            crate::function::function::arg_views(inputs@) == f.spec_inputs(),
            forall|k: int|
                0 <= k < i ==> #[trigger] input_met(request.inputs@[k], f.spec_inputs()),
        decreases request.inputs.len() - i,
    {
        if !some_input_fits(&request.inputs[i], &inputs) {
            assert(!input_met(request.inputs@[i as int], f.spec_inputs()));
            return false;
        }
        i = i + 1;
    }
    let out_ty = match output {
        Some(a) => Some(a.ty),
        None => None,
    };
    assert(out_ty == output_type(f.spec_output()));
    match (request.output, out_ty) {
        (Some(a), Some(b)) => a == b,
        (None, None) => true,
        _ => false,
    }
}

} // verus!
