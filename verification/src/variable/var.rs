//! The tagged values that host and plugins pass to each other.

use vstd::prelude::*;
use vstd::std_specs::convert::FromSpecImpl;
use crate::utils::error::ParseVariableError;

verus! {

/// A value of one of the types that cross the boundary between host and
/// plugin.
///
/// A floating-point number is held as the bits of its IEEE 754 encoding, so
/// that two variables are equal exactly when they hold the same variant and
/// the same contents.
#[derive(Debug, PartialEq, Eq)]
pub enum Variable {
    Null,
    I8(i8),
    I16(i16),
    I32(i32),
    I64(i64),
    U8(u8),
    U16(u16),
    U32(u32),
    U64(u64),
    /// The bits of a 32-bit floating-point number.
    F32(u32),
    /// The bits of a 64-bit floating-point number.
    F64(u64),
    Bool(bool),
    Char(char),
    String(String),
    List(Vec<Variable>),
}

/// Structural equality: the same variant with the same contents. Strings
/// are compared by their characters, lists member by member.
pub open spec fn same_value(a: Variable, b: Variable) -> bool
    decreases a,
{
    match (a, b) {
        (Variable::Null, Variable::Null) => true,
        (Variable::I8(x), Variable::I8(y)) => x == y,
        (Variable::I16(x), Variable::I16(y)) => x == y,
        (Variable::I32(x), Variable::I32(y)) => x == y,
        (Variable::I64(x), Variable::I64(y)) => x == y,
        (Variable::U8(x), Variable::U8(y)) => x == y,
        (Variable::U16(x), Variable::U16(y)) => x == y,
        (Variable::U32(x), Variable::U32(y)) => x == y,
        (Variable::U64(x), Variable::U64(y)) => x == y,
        (Variable::F32(x), Variable::F32(y)) => x == y,
        (Variable::F64(x), Variable::F64(y)) => x == y,
        (Variable::Bool(x), Variable::Bool(y)) => x == y,
        (Variable::Char(x), Variable::Char(y)) => x == y,
        (Variable::String(x), Variable::String(y)) => x@ == y@,
        (Variable::List(x), Variable::List(y)) => x@.len() == y@.len() && forall|i: int|
            0 <= i < x@.len() ==> same_value(#[trigger] x@[i], y@[i]),
        _ => false,
    }
}

/// The sign of the comparison of two integers.
pub open spec fn sign_of(x: int, y: int) -> i8 {
    if x < y {
        -1i8
    } else if x == y {
        0i8
    } else {
        1i8
    }
}

/// The order of two variables of the same kind; none for variables of
/// different kinds and for texts, lists and floating-point numbers.
pub open spec fn order_of(a: Variable, b: Variable) -> Option<i8> {
    match (a, b) {
        (Variable::Null, Variable::Null) => Some(0i8),
        (Variable::I8(x), Variable::I8(y)) => Some(sign_of(x as int, y as int)),
        (Variable::I16(x), Variable::I16(y)) => Some(sign_of(x as int, y as int)),
        (Variable::I32(x), Variable::I32(y)) => Some(sign_of(x as int, y as int)),
        (Variable::I64(x), Variable::I64(y)) => Some(sign_of(x as int, y as int)),
        (Variable::U8(x), Variable::U8(y)) => Some(sign_of(x as int, y as int)),
        (Variable::U16(x), Variable::U16(y)) => Some(sign_of(x as int, y as int)),
        (Variable::U32(x), Variable::U32(y)) => Some(sign_of(x as int, y as int)),
        (Variable::U64(x), Variable::U64(y)) => Some(sign_of(x as int, y as int)),
        (Variable::Bool(x), Variable::Bool(y)) => Some(
            sign_of(
                if x {
                    1
                } else {
                    0
                },
                if y {
                    1
                } else {
                    0
                },
            ),
        ),
        (Variable::Char(x), Variable::Char(y)) => Some(sign_of(x as int, y as int)),
        _ => None,
    }
}

fn sign(x: i128, y: i128) -> (r: i8)
    ensures
        r == sign_of(x as int, y as int),
{
    if x < y {
        -1
    } else if x == y {
        0
    } else {
        1
    }
}

impl Clone for Variable {
    fn clone(&self) -> (r: Self)
        ensures
            same_value(*self, r),
        decreases *self,
    {
        match self {
            Variable::Null => Variable::Null,
            Variable::I8(x) => Variable::I8(*x),
            Variable::I16(x) => Variable::I16(*x),
            Variable::I32(x) => Variable::I32(*x),
            Variable::I64(x) => Variable::I64(*x),
            Variable::U8(x) => Variable::U8(*x),
            Variable::U16(x) => Variable::U16(*x),
            Variable::U32(x) => Variable::U32(*x),
            Variable::U64(x) => Variable::U64(*x),
            Variable::F32(x) => Variable::F32(*x),
            Variable::F64(x) => Variable::F64(*x),
            Variable::Bool(x) => Variable::Bool(*x),
            Variable::Char(x) => Variable::Char(*x),
            Variable::String(x) => Variable::String(x.clone()),
            Variable::List(x) => {
                let mut items: Vec<Variable> = Vec::new();
                let mut i: usize = 0;
                while i < x.len()
                    invariant
                        i <= x.len(),
                        items@.len() == i,
                        decreases_to!(*self => *x),
                        forall|j: int| 0 <= j < i ==> same_value(#[trigger] x@[j], items@[j]),
                    decreases x.len() - i,
                {
                    assert(decreases_to!(*x => x@));
                    assert(decreases_to!(x@ => x@[i as int]));
                    assert(decreases_to!(*self => x@[i as int]));
                    items.push(x[i].clone());
                    i = i + 1;
                }
                Variable::List(items)
            },
        }
    }
}

impl Default for Variable {
    fn default() -> (r: Variable)
        ensures
            r is Null,
    {
        Variable::Null
    }
}

impl Variable {
    /// Whether the variable holds no value.
    pub fn is_null(&self) -> (r: bool)
        ensures
            r == (self is Null),
    {
        match self {
            Variable::Null => true,
            _ => false,
        }
    }

    /// Structural equality.
    pub fn equals(&self, other: &Variable) -> (r: bool)
        ensures
            r == same_value(*self, *other),
        decreases *self,
    {
        match (self, other) {
            (Variable::Null, Variable::Null) => true,
            (Variable::I8(x), Variable::I8(y)) => *x == *y,
            (Variable::I16(x), Variable::I16(y)) => *x == *y,
            (Variable::I32(x), Variable::I32(y)) => *x == *y,
            (Variable::I64(x), Variable::I64(y)) => *x == *y,
            (Variable::U8(x), Variable::U8(y)) => *x == *y,
            (Variable::U16(x), Variable::U16(y)) => *x == *y,
            (Variable::U32(x), Variable::U32(y)) => *x == *y,
            (Variable::U64(x), Variable::U64(y)) => *x == *y,
            (Variable::F32(x), Variable::F32(y)) => *x == *y,
            (Variable::F64(x), Variable::F64(y)) => *x == *y,
            (Variable::Bool(x), Variable::Bool(y)) => *x == *y,
            (Variable::Char(x), Variable::Char(y)) => *x == *y,
            (Variable::String(x), Variable::String(y)) => *x == *y,
            (Variable::List(x), Variable::List(y)) => {
                if x.len() != y.len() {
                    return false;
                }
                let mut i: usize = 0;
                while i < x.len()
                    invariant
                        i <= x.len(),
                        x@.len() == y@.len(),
                        decreases_to!(*self => *x),
                        *self == Variable::List(*x),
                        *other == Variable::List(*y),
                        forall|j: int| 0 <= j < i ==> same_value(#[trigger] x@[j], y@[j]),
                    decreases x.len() - i,
                {
                    assert(decreases_to!(*x => x@));
                    assert(decreases_to!(x@ => x@[i as int]));
                    assert(decreases_to!(*self => x@[i as int]));
                    if !x[i].equals(&y[i]) {
                        assert(!same_value(x@[i as int], y@[i as int]));
                        return false;
                    }
                    i = i + 1;
                }
                true
            },
            _ => false,
        }
    }

    /// The variable that holds a text.
    pub fn text(text: &str) -> (r: Variable)
        ensures
            r matches Variable::String(s) && s@ == text@,
    {
        Variable::String(text.to_owned())
    }

    /// The variable that holds a list of variables.
    pub fn list(items: Vec<Variable>) -> (r: Variable)
        ensures
            r == Variable::List(items),
    {
        Variable::List(items)
    }

    /// Takes the value out of the variable, which must hold a value of the
    /// type `F`.
    pub fn parse<F: FromVariable>(self) -> (r: F::Output)
        requires
            F::holds(&self),
        ensures
            F::yields(self, r),
    {
        match F::from_var(self) {
            Ok(value) => value,
            Err(_) => vstd::pervasive::unreached(),
        }
    }

    /// Borrows the value of the variable, which must hold a value of the
    /// type `F`.
    pub fn parse_ref<F: FromVariableRef>(&self) -> (r: F::RefOutput<'_>)
        requires
            F::holds(self),
        ensures
            r == F::borrowed(self),
    {
        match F::from_var_ref(self) {
            Ok(value) => value,
            Err(_) => vstd::pervasive::unreached(),
        }
    }

    /// Borrows the value of the variable for a change; the variable must
    /// hold a value of the type `F`.
    pub fn parse_mut<F: FromVariableMut>(&mut self) -> (r: &mut F::Output)
        requires
            F::holds(old(self)),
        ensures
            *r == F::taken(*old(self)),
            F::holds(final(self)),
            F::taken(*final(self)) == *final(r),
    {
        match F::from_var_mut(self) {
            Ok(value) => value,
            Err(_) => vstd::pervasive::unreached(),
        }
    }

    /// Borrows the value of the variable for a change if it holds a value
    /// of the type `F`.
    pub fn try_parse_mut<F: FromVariableMut>(&mut self) -> (r: Result<&mut F::Output, ParseVariableError>)
        ensures
            r is Ok == F::holds(old(self)),
            r matches Ok(value) ==> {
                &&& *value == F::taken(*old(self))
                &&& F::holds(final(self))
                &&& F::taken(*final(self)) == *final(value)
            },
            r matches Err(e) ==> e.expected() == F::refusal(old(self)) && *final(self) == *old(self),
    {
        F::from_var_mut(self)
    }

    /// Compares two variables of the same kind: two numbers of the same
    /// integer type, two truth values or two characters. The result is -1, 0
    /// or 1; variables of different kinds, and texts, lists and
    /// floating-point numbers, are not ordered.
    pub fn partial_compare(&self, other: &Variable) -> (r: Option<i8>)
        ensures
            r == order_of(*self, *other),
    {
        match (self, other) {
            (Variable::Null, Variable::Null) => Some(0),
            (Variable::I8(x), Variable::I8(y)) => Some(sign(*x as i128, *y as i128)),
            (Variable::I16(x), Variable::I16(y)) => Some(sign(*x as i128, *y as i128)),
            (Variable::I32(x), Variable::I32(y)) => Some(sign(*x as i128, *y as i128)),
            (Variable::I64(x), Variable::I64(y)) => Some(sign(*x as i128, *y as i128)),
            (Variable::U8(x), Variable::U8(y)) => Some(sign(*x as i128, *y as i128)),
            (Variable::U16(x), Variable::U16(y)) => Some(sign(*x as i128, *y as i128)),
            (Variable::U32(x), Variable::U32(y)) => Some(sign(*x as i128, *y as i128)),
            (Variable::U64(x), Variable::U64(y)) => Some(sign(*x as i128, *y as i128)),
            (Variable::Bool(x), Variable::Bool(y)) => Some(
                sign(
                    if *x {
                        1
                    } else {
                        0
                    },
                    if *y {
                        1
                    } else {
                        0
                    },
                ),
            ),
            (Variable::Char(x), Variable::Char(y)) => Some(sign(*x as u32 as i128, *y as u32 as i128)),
            _ => None,
        }
    }

    /// Takes the value out of the variable if it holds a value of the type
    /// `F`.
    pub fn try_parse<F: FromVariable>(self) -> (r: Result<F::Output, ParseVariableError>)
        ensures
            r is Ok == F::holds(&self),
            r matches Ok(value) ==> F::yields(self, value),
            r matches Err(e) ==> e.expected() == F::refusal(&self),
    {
        F::from_var(self)
    }

    /// Borrows the value of the variable if it holds a value of the type
    /// `F`.
    pub fn try_parse_ref<F: FromVariableRef>(&self) -> (r: Result<F::RefOutput<'_>, ParseVariableError>)
        ensures
            r is Ok == F::holds(self),
            r matches Ok(value) ==> value == F::borrowed(self),
            r matches Err(e) ==> e.expected() == F::refusal(self),
    {
        F::from_var_ref(self)
    }
}

/// A type whose values a variable can hold.
pub trait FromVariable {
    /// What taking the value out of a variable gives.
    type Output;

    /// Whether the variable holds a value of this type.
    spec fn holds(var: &Variable) -> bool;

    /// The name of the type in the error for a variable of another type.
    spec fn expected() -> Seq<char>;

    /// The name of the type that the error names for a variable that holds
    /// no value of this type: the name of this type, unless the type says
    /// otherwise.
    open spec fn refusal(var: &Variable) -> Seq<char> {
        Self::expected()
    }

    /// The value of a variable that holds one of this type.
    spec fn taken(var: Variable) -> Self::Output;

    /// Whether `value` is what taking the value out of the variable gives:
    /// the value that it holds, unless the type says otherwise.
    open spec fn yields(var: Variable, value: Self::Output) -> bool {
        value == Self::taken(var)
    }

    fn from_var(var: Variable) -> (r: Result<Self::Output, ParseVariableError>)
        ensures
            r is Ok == Self::holds(&var),
            r matches Ok(value) ==> Self::yields(var, value),
            r matches Err(e) ==> e.expected() == Self::refusal(&var),
    ;

}

/// A type whose values a variable can lend out.
pub trait FromVariableRef: FromVariable {
    /// What borrowing the value of a variable gives.
    type RefOutput<'a> where Self: 'a;

    /// The value of a variable that holds one of this type, borrowed.
    spec fn borrowed<'a>(var: &'a Variable) -> Self::RefOutput<'a>;

    fn from_var_ref(var: &Variable) -> (r: Result<Self::RefOutput<'_>, ParseVariableError>)
        ensures
            r is Ok == Self::holds(var),
            r matches Ok(value) ==> value == Self::borrowed(var),
            r matches Err(e) ==> e.expected() == Self::refusal(var),
    ;
}

/// A type whose values a variable can lend out for a change.
pub trait FromVariableMut: FromVariable {
    fn from_var_mut(var: &mut Variable) -> (r: Result<&mut Self::Output, ParseVariableError>)
        ensures
            r is Ok == Self::holds(old(var)),
            r matches Ok(value) ==> {
                &&& *value == Self::taken(*old(var))
                &&& Self::holds(final(var))
                &&& Self::taken(*final(var)) == *final(value)
            },
            r matches Err(e) ==> e.expected() == Self::refusal(old(var)) && *final(var) == *old(var),
    ;
}

impl From<i8> for Variable {
    fn from(x: i8) -> (r: Variable)
        ensures
            r == Variable::I8(x),
    {
        Variable::I8(x)
    }
}

impl FromSpecImpl<i8> for Variable {
    open spec fn obeys_from_spec() -> bool {
        true
    }

    open spec fn from_spec(x: i8) -> Variable {
        Variable::I8(x)
    }
}

impl FromVariable for i8 {
    type Output = i8;

    open spec fn holds(var: &Variable) -> bool {
        var is I8
    }

    open spec fn expected() -> Seq<char> {
        "I8"@
    }

    open spec fn taken(var: Variable) -> i8 {
        var->I8_0
    }

    fn from_var(var: Variable) -> (r: Result<i8, ParseVariableError>) {
        match var {
            Variable::I8(x) => Ok(x),
            _ => Err(ParseVariableError::new("I8")),
        }
    }
}

impl FromVariableRef for i8 {
    type RefOutput<'a> = &'a i8;

    open spec fn borrowed<'a>(var: &'a Variable) -> &'a i8 {
        &var->I8_0
    }

    fn from_var_ref(var: &Variable) -> (r: Result<&i8, ParseVariableError>) {
        match var {
            Variable::I8(x) => Ok(x),
            _ => Err(ParseVariableError::new("I8")),
        }
    }
}

impl FromVariableMut for i8 {
    fn from_var_mut(var: &mut Variable) -> (r: Result<&mut i8, ParseVariableError>)
        ensures
            r matches Ok(value) ==> *value == (*old(var))->I8_0 && *final(var) == Variable::I8(
                *final(value),
            ),
    {
        match var {
            Variable::I8(x) => Ok(x),
            _ => Err(ParseVariableError::new("I8")),
        }
    }
}

impl From<i16> for Variable {
    fn from(x: i16) -> (r: Variable)
        ensures
            r == Variable::I16(x),
    {
        Variable::I16(x)
    }
}

impl FromSpecImpl<i16> for Variable {
    open spec fn obeys_from_spec() -> bool {
        true
    }

    open spec fn from_spec(x: i16) -> Variable {
        Variable::I16(x)
    }
}

impl FromVariable for i16 {
    type Output = i16;

    open spec fn holds(var: &Variable) -> bool {
        var is I16
    }

    open spec fn expected() -> Seq<char> {
        "I16"@
    }

    open spec fn taken(var: Variable) -> i16 {
        var->I16_0
    }

    fn from_var(var: Variable) -> (r: Result<i16, ParseVariableError>) {
        match var {
            Variable::I16(x) => Ok(x),
            _ => Err(ParseVariableError::new("I16")),
        }
    }
}

impl FromVariableRef for i16 {
    type RefOutput<'a> = &'a i16;

    open spec fn borrowed<'a>(var: &'a Variable) -> &'a i16 {
        &var->I16_0
    }

    fn from_var_ref(var: &Variable) -> (r: Result<&i16, ParseVariableError>) {
        match var {
            Variable::I16(x) => Ok(x),
            _ => Err(ParseVariableError::new("I16")),
        }
    }
}

impl FromVariableMut for i16 {
    fn from_var_mut(var: &mut Variable) -> (r: Result<&mut i16, ParseVariableError>)
        ensures
            r matches Ok(value) ==> *value == (*old(var))->I16_0 && *final(var) == Variable::I16(
                *final(value),
            ),
    {
        match var {
            Variable::I16(x) => Ok(x),
            _ => Err(ParseVariableError::new("I16")),
        }
    }
}

impl From<i32> for Variable {
    fn from(x: i32) -> (r: Variable)
        ensures
            r == Variable::I32(x),
    {
        Variable::I32(x)
    }
}

impl FromSpecImpl<i32> for Variable {
    open spec fn obeys_from_spec() -> bool {
        true
    }

    open spec fn from_spec(x: i32) -> Variable {
        Variable::I32(x)
    }
}

impl FromVariable for i32 {
    type Output = i32;

    open spec fn holds(var: &Variable) -> bool {
        var is I32
    }

    open spec fn expected() -> Seq<char> {
        "I32"@
    }

    open spec fn taken(var: Variable) -> i32 {
        var->I32_0
    }

    fn from_var(var: Variable) -> (r: Result<i32, ParseVariableError>) {
        match var {
            Variable::I32(x) => Ok(x),
            _ => Err(ParseVariableError::new("I32")),
        }
    }
}

impl FromVariableRef for i32 {
    type RefOutput<'a> = &'a i32;

    open spec fn borrowed<'a>(var: &'a Variable) -> &'a i32 {
        &var->I32_0
    }

    fn from_var_ref(var: &Variable) -> (r: Result<&i32, ParseVariableError>) {
        match var {
            Variable::I32(x) => Ok(x),
            _ => Err(ParseVariableError::new("I32")),
        }
    }
}

impl FromVariableMut for i32 {
    fn from_var_mut(var: &mut Variable) -> (r: Result<&mut i32, ParseVariableError>)
        ensures
            r matches Ok(value) ==> *value == (*old(var))->I32_0 && *final(var) == Variable::I32(
                *final(value),
            ),
    {
        match var {
            Variable::I32(x) => Ok(x),
            _ => Err(ParseVariableError::new("I32")),
        }
    }
}

impl From<i64> for Variable {
    fn from(x: i64) -> (r: Variable)
        ensures
            r == Variable::I64(x),
    {
        Variable::I64(x)
    }
}

impl FromSpecImpl<i64> for Variable {
    open spec fn obeys_from_spec() -> bool {
        true
    }

    open spec fn from_spec(x: i64) -> Variable {
        Variable::I64(x)
    }
}

impl FromVariable for i64 {
    type Output = i64;

    open spec fn holds(var: &Variable) -> bool {
        var is I64
    }

    open spec fn expected() -> Seq<char> {
        "I64"@
    }

    open spec fn taken(var: Variable) -> i64 {
        var->I64_0
    }

    fn from_var(var: Variable) -> (r: Result<i64, ParseVariableError>) {
        match var {
            Variable::I64(x) => Ok(x),
            _ => Err(ParseVariableError::new("I64")),
        }
    }
}

impl FromVariableRef for i64 {
    type RefOutput<'a> = &'a i64;

    open spec fn borrowed<'a>(var: &'a Variable) -> &'a i64 {
        &var->I64_0
    }

    fn from_var_ref(var: &Variable) -> (r: Result<&i64, ParseVariableError>) {
        match var {
            Variable::I64(x) => Ok(x),
            _ => Err(ParseVariableError::new("I64")),
        }
    }
}

impl FromVariableMut for i64 {
    fn from_var_mut(var: &mut Variable) -> (r: Result<&mut i64, ParseVariableError>)
        ensures
            r matches Ok(value) ==> *value == (*old(var))->I64_0 && *final(var) == Variable::I64(
                *final(value),
            ),
    {
        match var {
            Variable::I64(x) => Ok(x),
            _ => Err(ParseVariableError::new("I64")),
        }
    }
}

impl From<u8> for Variable {
    fn from(x: u8) -> (r: Variable)
        ensures
            r == Variable::U8(x),
    {
        Variable::U8(x)
    }
}

impl FromSpecImpl<u8> for Variable {
    open spec fn obeys_from_spec() -> bool {
        true
    }

    open spec fn from_spec(x: u8) -> Variable {
        Variable::U8(x)
    }
}

impl FromVariable for u8 {
    type Output = u8;

    open spec fn holds(var: &Variable) -> bool {
        var is U8
    }

    open spec fn expected() -> Seq<char> {
        "U8"@
    }

    open spec fn taken(var: Variable) -> u8 {
        var->U8_0
    }

    fn from_var(var: Variable) -> (r: Result<u8, ParseVariableError>) {
        match var {
            Variable::U8(x) => Ok(x),
            _ => Err(ParseVariableError::new("U8")),
        }
    }
}

impl FromVariableRef for u8 {
    type RefOutput<'a> = &'a u8;

    open spec fn borrowed<'a>(var: &'a Variable) -> &'a u8 {
        &var->U8_0
    }

    fn from_var_ref(var: &Variable) -> (r: Result<&u8, ParseVariableError>) {
        match var {
            Variable::U8(x) => Ok(x),
            _ => Err(ParseVariableError::new("U8")),
        }
    }
}

impl FromVariableMut for u8 {
    fn from_var_mut(var: &mut Variable) -> (r: Result<&mut u8, ParseVariableError>)
        ensures
            r matches Ok(value) ==> *value == (*old(var))->U8_0 && *final(var) == Variable::U8(
                *final(value),
            ),
    {
        match var {
            Variable::U8(x) => Ok(x),
            _ => Err(ParseVariableError::new("U8")),
        }
    }
}

impl From<u16> for Variable {
    fn from(x: u16) -> (r: Variable)
        ensures
            r == Variable::U16(x),
    {
        Variable::U16(x)
    }
}

impl FromSpecImpl<u16> for Variable {
    open spec fn obeys_from_spec() -> bool {
        true
    }

    open spec fn from_spec(x: u16) -> Variable {
        Variable::U16(x)
    }
}

impl FromVariable for u16 {
    type Output = u16;

    open spec fn holds(var: &Variable) -> bool {
        var is U16
    }

    open spec fn expected() -> Seq<char> {
        "U16"@
    }

    open spec fn taken(var: Variable) -> u16 {
        var->U16_0
    }

    fn from_var(var: Variable) -> (r: Result<u16, ParseVariableError>) {
        match var {
            Variable::U16(x) => Ok(x),
            _ => Err(ParseVariableError::new("U16")),
        }
    }
}

impl FromVariableRef for u16 {
    type RefOutput<'a> = &'a u16;

    open spec fn borrowed<'a>(var: &'a Variable) -> &'a u16 {
        &var->U16_0
    }

    fn from_var_ref(var: &Variable) -> (r: Result<&u16, ParseVariableError>) {
        match var {
            Variable::U16(x) => Ok(x),
            _ => Err(ParseVariableError::new("U16")),
        }
    }
}

impl FromVariableMut for u16 {
    fn from_var_mut(var: &mut Variable) -> (r: Result<&mut u16, ParseVariableError>)
        ensures
            r matches Ok(value) ==> *value == (*old(var))->U16_0 && *final(var) == Variable::U16(
                *final(value),
            ),
    {
        match var {
            Variable::U16(x) => Ok(x),
            _ => Err(ParseVariableError::new("U16")),
        }
    }
}

impl From<u32> for Variable {
    fn from(x: u32) -> (r: Variable)
        ensures
            r == Variable::U32(x),
    {
        Variable::U32(x)
    }
}

impl FromSpecImpl<u32> for Variable {
    open spec fn obeys_from_spec() -> bool {
        true
    }

    open spec fn from_spec(x: u32) -> Variable {
        Variable::U32(x)
    }
}

impl FromVariable for u32 {
    type Output = u32;

    open spec fn holds(var: &Variable) -> bool {
        var is U32
    }

    open spec fn expected() -> Seq<char> {
        "U32"@
    }

    open spec fn taken(var: Variable) -> u32 {
        var->U32_0
    }

    fn from_var(var: Variable) -> (r: Result<u32, ParseVariableError>) {
        match var {
            Variable::U32(x) => Ok(x),
            _ => Err(ParseVariableError::new("U32")),
        }
    }
}

impl FromVariableRef for u32 {
    type RefOutput<'a> = &'a u32;

    open spec fn borrowed<'a>(var: &'a Variable) -> &'a u32 {
        &var->U32_0
    }

    fn from_var_ref(var: &Variable) -> (r: Result<&u32, ParseVariableError>) {
        match var {
            Variable::U32(x) => Ok(x),
            _ => Err(ParseVariableError::new("U32")),
        }
    }
}

impl FromVariableMut for u32 {
    fn from_var_mut(var: &mut Variable) -> (r: Result<&mut u32, ParseVariableError>)
        ensures
            r matches Ok(value) ==> *value == (*old(var))->U32_0 && *final(var) == Variable::U32(
                *final(value),
            ),
    {
        match var {
            Variable::U32(x) => Ok(x),
            _ => Err(ParseVariableError::new("U32")),
        }
    }
}

impl From<u64> for Variable {
    fn from(x: u64) -> (r: Variable)
        ensures
            r == Variable::U64(x),
    {
        Variable::U64(x)
    }
}

impl FromSpecImpl<u64> for Variable {
    open spec fn obeys_from_spec() -> bool {
        true
    }

    open spec fn from_spec(x: u64) -> Variable {
        Variable::U64(x)
    }
}

impl FromVariable for u64 {
    type Output = u64;

    open spec fn holds(var: &Variable) -> bool {
        var is U64
    }

    open spec fn expected() -> Seq<char> {
        "U64"@
    }

    open spec fn taken(var: Variable) -> u64 {
        var->U64_0
    }

    fn from_var(var: Variable) -> (r: Result<u64, ParseVariableError>) {
        match var {
            Variable::U64(x) => Ok(x),
            _ => Err(ParseVariableError::new("U64")),
        }
    }
}

impl FromVariableRef for u64 {
    type RefOutput<'a> = &'a u64;

    open spec fn borrowed<'a>(var: &'a Variable) -> &'a u64 {
        &var->U64_0
    }

    fn from_var_ref(var: &Variable) -> (r: Result<&u64, ParseVariableError>) {
        match var {
            Variable::U64(x) => Ok(x),
            _ => Err(ParseVariableError::new("U64")),
        }
    }
}

impl FromVariableMut for u64 {
    fn from_var_mut(var: &mut Variable) -> (r: Result<&mut u64, ParseVariableError>)
        ensures
            r matches Ok(value) ==> *value == (*old(var))->U64_0 && *final(var) == Variable::U64(
                *final(value),
            ),
    {
        match var {
            Variable::U64(x) => Ok(x),
            _ => Err(ParseVariableError::new("U64")),
        }
    }
}

impl From<bool> for Variable {
    fn from(x: bool) -> (r: Variable)
        ensures
            r == Variable::Bool(x),
    {
        Variable::Bool(x)
    }
}

impl FromSpecImpl<bool> for Variable {
    open spec fn obeys_from_spec() -> bool {
        true
    }

    open spec fn from_spec(x: bool) -> Variable {
        Variable::Bool(x)
    }
}

impl FromVariable for bool {
    type Output = bool;

    open spec fn holds(var: &Variable) -> bool {
        var is Bool
    }

    open spec fn expected() -> Seq<char> {
        "Bool"@
    }

    open spec fn taken(var: Variable) -> bool {
        var->Bool_0
    }

    fn from_var(var: Variable) -> (r: Result<bool, ParseVariableError>) {
        match var {
            Variable::Bool(x) => Ok(x),
            _ => Err(ParseVariableError::new("Bool")),
        }
    }
}

impl FromVariableRef for bool {
    type RefOutput<'a> = &'a bool;

    open spec fn borrowed<'a>(var: &'a Variable) -> &'a bool {
        &var->Bool_0
    }

    fn from_var_ref(var: &Variable) -> (r: Result<&bool, ParseVariableError>) {
        match var {
            Variable::Bool(x) => Ok(x),
            _ => Err(ParseVariableError::new("Bool")),
        }
    }
}

impl FromVariableMut for bool {
    fn from_var_mut(var: &mut Variable) -> (r: Result<&mut bool, ParseVariableError>)
        ensures
            r matches Ok(value) ==> *value == (*old(var))->Bool_0 && *final(var) == Variable::Bool(
                *final(value),
            ),
    {
        match var {
            Variable::Bool(x) => Ok(x),
            _ => Err(ParseVariableError::new("Bool")),
        }
    }
}

impl From<char> for Variable {
    fn from(x: char) -> (r: Variable)
        ensures
            r == Variable::Char(x),
    {
        Variable::Char(x)
    }
}

impl FromSpecImpl<char> for Variable {
    open spec fn obeys_from_spec() -> bool {
        true
    }

    open spec fn from_spec(x: char) -> Variable {
        Variable::Char(x)
    }
}

impl FromVariable for char {
    type Output = char;

    open spec fn holds(var: &Variable) -> bool {
        var is Char
    }

    open spec fn expected() -> Seq<char> {
        "Char"@
    }

    open spec fn taken(var: Variable) -> char {
        var->Char_0
    }

    fn from_var(var: Variable) -> (r: Result<char, ParseVariableError>) {
        match var {
            Variable::Char(x) => Ok(x),
            _ => Err(ParseVariableError::new("Char")),
        }
    }
}

impl FromVariableRef for char {
    type RefOutput<'a> = &'a char;

    open spec fn borrowed<'a>(var: &'a Variable) -> &'a char {
        &var->Char_0
    }

    fn from_var_ref(var: &Variable) -> (r: Result<&char, ParseVariableError>) {
        match var {
            Variable::Char(x) => Ok(x),
            _ => Err(ParseVariableError::new("Char")),
        }
    }
}

impl FromVariableMut for char {
    fn from_var_mut(var: &mut Variable) -> (r: Result<&mut char, ParseVariableError>)
        ensures
            r matches Ok(value) ==> *value == (*old(var))->Char_0 && *final(var) == Variable::Char(
                *final(value),
            ),
    {
        match var {
            Variable::Char(x) => Ok(x),
            _ => Err(ParseVariableError::new("Char")),
        }
    }
}

impl From<String> for Variable {
    fn from(x: String) -> (r: Variable)
        ensures
            r == Variable::String(x),
    {
        Variable::String(x)
    }
}

impl FromSpecImpl<String> for Variable {
    open spec fn obeys_from_spec() -> bool {
        true
    }

    open spec fn from_spec(x: String) -> Variable {
        Variable::String(x)
    }
}

impl FromVariable for String {
    type Output = String;

    open spec fn holds(var: &Variable) -> bool {
        var is String
    }

    open spec fn expected() -> Seq<char> {
        "String"@
    }

    open spec fn taken(var: Variable) -> String {
        var->String_0
    }

    fn from_var(var: Variable) -> (r: Result<String, ParseVariableError>) {
        match var {
            Variable::String(x) => Ok(x),
            _ => Err(ParseVariableError::new("String")),
        }
    }
}

impl FromVariableRef for String {
    type RefOutput<'a> = &'a String;

    open spec fn borrowed<'a>(var: &'a Variable) -> &'a String {
        &var->String_0
    }

    fn from_var_ref(var: &Variable) -> (r: Result<&String, ParseVariableError>) {
        match var {
            Variable::String(x) => Ok(x),
            _ => Err(ParseVariableError::new("String")),
        }
    }
}

impl FromVariableMut for String {
    fn from_var_mut(var: &mut Variable) -> (r: Result<&mut String, ParseVariableError>)
        ensures
            r matches Ok(value) ==> *value == (*old(var))->String_0 && *final(var) == Variable::String(
                *final(value),
            ),
    {
        match var {
            Variable::String(x) => Ok(x),
            _ => Err(ParseVariableError::new("String")),
        }
    }
}

impl From<Vec<Variable>> for Variable {
    fn from(x: Vec<Variable>) -> (r: Variable)
        ensures
            r == Variable::List(x),
    {
        Variable::List(x)
    }
}

impl FromSpecImpl<Vec<Variable>> for Variable {
    open spec fn obeys_from_spec() -> bool {
        true
    }

    open spec fn from_spec(x: Vec<Variable>) -> Variable {
        Variable::List(x)
    }
}

impl FromVariable for Vec<Variable> {
    type Output = Vec<Variable>;

    open spec fn holds(var: &Variable) -> bool {
        var is List
    }

    open spec fn expected() -> Seq<char> {
        "Vec<Variable>"@
    }

    open spec fn taken(var: Variable) -> Vec<Variable> {
        var->List_0
    }

    fn from_var(var: Variable) -> (r: Result<Vec<Variable>, ParseVariableError>) {
        match var {
            Variable::List(x) => Ok(x),
            _ => Err(ParseVariableError::new("Vec<Variable>")),
        }
    }
}

impl FromVariableRef for Vec<Variable> {
    type RefOutput<'a> = &'a Vec<Variable>;

    open spec fn borrowed<'a>(var: &'a Variable) -> &'a Vec<Variable> {
        &var->List_0
    }

    fn from_var_ref(var: &Variable) -> (r: Result<&Vec<Variable>, ParseVariableError>) {
        match var {
            Variable::List(x) => Ok(x),
            _ => Err(ParseVariableError::new("Vec<Variable>")),
        }
    }
}

impl FromVariableMut for Vec<Variable> {
    fn from_var_mut(var: &mut Variable) -> (r: Result<&mut Vec<Variable>, ParseVariableError>)
        ensures
            r matches Ok(value) ==> *value == (*old(var))->List_0 && *final(var) == Variable::List(
                *final(value),
            ),
    {
        match var {
            Variable::List(x) => Ok(x),
            _ => Err(ParseVariableError::new("Vec<Variable>")),
        }
    }
}

/// The name that the error names for the first of the first `n` variables
/// of a list that holds no value of the type `T`, looked for from the end
/// with `found` as the name so far.
pub open spec fn first_refusal<T: FromVariable>(list: Seq<Variable>, n: int, found: Seq<char>) -> Seq<
    char,
>
    decreases n,
{
    if n <= 0 {
        found
    } else if T::holds(&list[n - 1]) {
        first_refusal::<T>(list, n - 1, found)
    } else {
        first_refusal::<T>(list, n - 1, T::refusal(&list[n - 1]))
    }
}

impl<T: FromVariable> FromVariable for Vec<T> {
    type Output = Vec<T::Output>;

    open spec fn holds(var: &Variable) -> bool {
        var is List && forall|i: int| 0 <= i < var->List_0@.len() ==> T::holds(&var->List_0@[i])
    }

    open spec fn expected() -> Seq<char> {
        "Vec<T>"@
    }

    open spec fn refusal(var: &Variable) -> Seq<char> {
        if var is List {
            first_refusal::<T>(var->List_0@, var->List_0@.len() as int, "Vec<T>"@)
        } else {
            "Vec<T>"@
        }
    }

    open spec fn taken(var: Variable) -> Vec<T::Output> {
        choose|v: Vec<T::Output>| Self::yields(var, v)
    }

    open spec fn yields(var: Variable, value: Vec<T::Output>) -> bool {
        &&& value@.len() == var->List_0@.len()
        &&& forall|i: int| 0 <= i < value@.len() ==> T::yields(var->List_0@[i], #[trigger] value@[i])
    }

    fn from_var(var: Variable) -> (r: Result<Vec<T::Output>, ParseVariableError>) {
        match var {
            Variable::List(x) => {
                let ghost all = x@;
                assert(var->List_0@ == all);
                let n = x.len();
                let mut rest = x;
                let mut turned: Vec<Variable> = Vec::new();
                while rest.len() > 0
                    invariant
                        n == all.len(),
                        rest@.len() + turned@.len() == n,
                        rest@ == all.take(rest@.len() as int),
                        forall|j: int| 0 <= j < turned@.len() ==> turned@[j] == all[n - 1 - j],
                    decreases rest.len(),
                {
                    let ghost before = rest@;
                    let last = rest.pop();
                    match last {
                        Some(v) => {
                            turned.push(v);
                        },
                        None => {},
                    }
                    assert(rest@ =~= all.take(rest@.len() as int));
                }
                let mut out: Vec<T::Output> = Vec::new();
                while turned.len() > 0
                    invariant
                        n == all.len(),
                        var is List,
                        var->List_0@ == all,
                        out@.len() + turned@.len() == n,
                        forall|j: int| 0 <= j < turned@.len() ==> turned@[j] == all[n - 1 - j],
                        forall|j: int| 0 <= j < out@.len() ==> T::holds(&#[trigger] all[j]),
                        forall|j: int| 0 <= j < out@.len() ==> T::yields(all[j], #[trigger] out@[j]),
                    decreases turned.len(),
                {
                    let ghost k = out@.len() as int;
                    let ghost so_far = out@;
                    let next = turned.pop();
                    match next {
                        None => {
                            assert(false);
                        },
                        Some(v) => {
                            assert(v == all[k]);
                            match T::from_var(v) {
                                Err(e) => {
                                    proof {
                                        lemma_first_refusal::<T>(all, n as int, k, "Vec<T>"@);
                                        assert(var->List_0@ == all);
                                        assert(!T::holds(&var->List_0@[k]));
                                        assert(e.expected() == T::refusal(&all[k]));
                                        assert(Self::refusal(&var) == first_refusal::<T>(
                                            all,
                                            n as int,
                                            "Vec<T>"@,
                                        ));
                                    }
                                    return Err(e);
                                },
                                Ok(value) => {
                                    out.push(value);
                                    assert forall|j: int| 0 <= j < out@.len() implies T::yields(
                                        all[j],
                                        #[trigger] out@[j],
                                    ) by {
                                        if j < k {
                                            assert(out@[j] == so_far[j]);
                                        }
                                    }
                                },
                            }
                        },
                    }
                }
                proof {
                    assert forall|i: int| 0 <= i < var->List_0@.len() implies T::holds(
                        &var->List_0@[i],
                    ) by {
                        assert(T::holds(&all[i]));
                    }
                }
                Ok(out)
            },
            _ => {
                proof {
                    reveal_strlit("Vec<T>");
                }
                Err(ParseVariableError::new("Vec<T>"))
            },
        }
    }
}

/// The first variable of a list that holds no value of the type `T` decides
/// the name in the error.
proof fn lemma_first_refusal<T: FromVariable>(list: Seq<Variable>, n: int, k: int, found: Seq<char>)
    requires
        0 <= k < n <= list.len(),
        forall|j: int| 0 <= j < k ==> T::holds(&list[j]),
        !T::holds(&list[k]),
    ensures
        first_refusal::<T>(list, n, found) == T::refusal(&list[k]),
    decreases n,
{
    if n - 1 > k {
        lemma_first_refusal::<T>(list, n - 1, k, found);
        if !T::holds(&list[n - 1]) {
            lemma_first_refusal::<T>(list, n - 1, k, T::refusal(&list[n - 1]));
        }
    } else {
        lemma_first_refusal_held::<T>(list, k, T::refusal(&list[k]));
    }
}

/// Where every one of the first `n` variables holds a value of the type
/// `T`, the name found so far stays.
proof fn lemma_first_refusal_held<T: FromVariable>(list: Seq<Variable>, n: int, found: Seq<char>)
    requires
        0 <= n <= list.len(),
        forall|j: int| 0 <= j < n ==> T::holds(&list[j]),
    ensures
        first_refusal::<T>(list, n, found) == found,
    decreases n,
{
    if n > 0 {
        lemma_first_refusal_held::<T>(list, n - 1, found);
    }
}

} // verus!
