//! Named, typed callables: the functions that host and plugins offer each
//! other, and the requests that the host expects of every plugin.

pub mod arg;
pub mod function;
pub mod request;

pub use arg::Arg;
pub use function::{ArgView, DynamicFunction, Function, FunctionBox, FunctionOutput};
pub use request::Request;
