//! The values exchanged between host and plugins, and their type codes.

pub mod var;
pub mod var_type;

pub use var::{FromVariable, FromVariableMut, FromVariableRef, Variable};
pub use var_type::{
    VariableFloatType, VariableIntType, VariableSignedIntType, VariableType,
    VariableUnsignedIntType,
};
