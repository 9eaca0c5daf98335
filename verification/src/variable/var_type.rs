//! Type codes used in the signatures of functions and requests.

use vstd::prelude::*;

verus! {

/// The type of a variable as a signature names it.
#[derive(Clone, Copy, Debug, PartialEq, Eq, Structural)]
pub enum VariableType {
    /// Any type: fits every other code when signatures are compared.
    Let,
    Int(VariableIntType),
    Float(VariableFloatType),
    Bool,
    Char,
    String,
    List,
}

#[derive(Clone, Copy, Debug, PartialEq, Eq, Structural)]
pub enum VariableIntType {
    Signed(VariableSignedIntType),
    Unsigned(VariableUnsignedIntType),
}

#[derive(Clone, Copy, Debug, PartialEq, Eq, Structural)]
pub enum VariableSignedIntType {
    I8,
    I16,
    I32,
    I64,
}

#[derive(Clone, Copy, Debug, PartialEq, Eq, Structural)]
pub enum VariableUnsignedIntType {
    U8,
    U16,
    U32,
    U64,
}

#[derive(Clone, Copy, Debug, PartialEq, Eq, Structural)]
pub enum VariableFloatType {
    F32,
    F64,
}

/// Whether a declared input type is met by a provided one: the two are
/// equal, or one of them is [`VariableType::Let`].
pub open spec fn type_fits(declared: VariableType, provided: VariableType) -> bool {
    declared == VariableType::Let || provided == VariableType::Let || declared == provided
}

impl VariableType {
    /// The code of a signed integer type.
    pub fn signed(t: VariableSignedIntType) -> (r: VariableType)
        ensures
            r == VariableType::Int(VariableIntType::Signed(t)),
    {
        VariableType::Int(VariableIntType::Signed(t))
    }

    /// The code of an unsigned integer type.
    pub fn unsigned(t: VariableUnsignedIntType) -> (r: VariableType)
        ensures
            r == VariableType::Int(VariableIntType::Unsigned(t)),
    {
        VariableType::Int(VariableIntType::Unsigned(t))
    }

    /// The code of a floating-point type.
    pub fn float(t: VariableFloatType) -> (r: VariableType)
        ensures
            r == VariableType::Float(t),
    {
        VariableType::Float(t)
    }

    /// Whether an input declared with this type is met by one of type
    /// `provided`.
    pub fn fits(&self, provided: &VariableType) -> (r: bool)
        ensures
            r == type_fits(*self, *provided),
    {
        *self == VariableType::Let || *provided == VariableType::Let || *self == *provided
    }

    /// The name of the type code as it is written in a signature.
    pub fn name(&self) -> (r: &'static str)
        ensures
            r@ == code_name(*self),
    {
        match self {
            VariableType::Let => "Let",
            VariableType::Int(t) => t.name(),
            VariableType::Float(t) => t.name(),
            VariableType::Bool => "Bool",
            VariableType::Char => "Char",
            VariableType::String => "String",
            VariableType::List => "List",
        }
    }
}

/// The name of a type code: that of its innermost variant.
pub open spec fn code_name(t: VariableType) -> Seq<char> {
    match t {
        VariableType::Let => "Let"@,
        VariableType::Int(VariableIntType::Signed(VariableSignedIntType::I8)) => "I8"@,
        VariableType::Int(VariableIntType::Signed(VariableSignedIntType::I16)) => "I16"@,
        VariableType::Int(VariableIntType::Signed(VariableSignedIntType::I32)) => "I32"@,
        VariableType::Int(VariableIntType::Signed(VariableSignedIntType::I64)) => "I64"@,
        VariableType::Int(VariableIntType::Unsigned(VariableUnsignedIntType::U8)) => "U8"@,
        VariableType::Int(VariableIntType::Unsigned(VariableUnsignedIntType::U16)) => "U16"@,
        VariableType::Int(VariableIntType::Unsigned(VariableUnsignedIntType::U32)) => "U32"@,
        VariableType::Int(VariableIntType::Unsigned(VariableUnsignedIntType::U64)) => "U64"@,
        VariableType::Float(VariableFloatType::F32) => "F32"@,
        VariableType::Float(VariableFloatType::F64) => "F64"@,
        VariableType::Bool => "Bool"@,
        VariableType::Char => "Char"@,
        VariableType::String => "String"@,
        VariableType::List => "List"@,
    }
}

impl VariableIntType {
    pub fn name(&self) -> (r: &'static str)
        ensures
            r@ == code_name(VariableType::Int(*self)),
    {
        match self {
            VariableIntType::Signed(t) => t.name(),
            VariableIntType::Unsigned(t) => t.name(),
        }
    }
}

impl VariableSignedIntType {
    pub fn name(&self) -> (r: &'static str)
        ensures
            r@ == code_name(VariableType::Int(VariableIntType::Signed(*self))),
    {
        match self {
            VariableSignedIntType::I8 => "I8",
            VariableSignedIntType::I16 => "I16",
            VariableSignedIntType::I32 => "I32",
            VariableSignedIntType::I64 => "I64",
        }
    }
}

impl VariableUnsignedIntType {
    pub fn name(&self) -> (r: &'static str)
        ensures
            r@ == code_name(VariableType::Int(VariableIntType::Unsigned(*self))),
    {
        match self {
            VariableUnsignedIntType::U8 => "U8",
            VariableUnsignedIntType::U16 => "U16",
            VariableUnsignedIntType::U32 => "U32",
            VariableUnsignedIntType::U64 => "U64",
        }
    }
}

impl VariableFloatType {
    pub fn name(&self) -> (r: &'static str)
        ensures
            r@ == code_name(VariableType::Float(*self)),
    {
        match self {
            VariableFloatType::F32 => "F32",
            VariableFloatType::F64 => "F64",
        }
    }
}

impl Default for VariableType {
    fn default() -> (r: VariableType)
        ensures
            r == VariableType::Let,
    {
        VariableType::Let
    }
}

impl Default for VariableIntType {
    fn default() -> (r: VariableIntType)
        ensures
            r == VariableIntType::Signed(VariableSignedIntType::I32),
    {
        VariableIntType::Signed(VariableSignedIntType::I32)
    }
}

impl Default for VariableSignedIntType {
    fn default() -> (r: VariableSignedIntType)
        ensures
            r == VariableSignedIntType::I32,
    {
        VariableSignedIntType::I32
    }
}

impl Default for VariableUnsignedIntType {
    fn default() -> (r: VariableUnsignedIntType)
        ensures
            r == VariableUnsignedIntType::U32,
    {
        VariableUnsignedIntType::U32
    }
}

impl Default for VariableFloatType {
    fn default() -> (r: VariableFloatType)
        ensures
            r == VariableFloatType::F32,
    {
        VariableFloatType::F32
    }
}

} // verus!
