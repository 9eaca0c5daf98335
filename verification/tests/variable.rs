use plux_rs::function::{Arg, Request};
use plux_rs::utils::error::ParseVariableError;
use plux_rs::variable::{
    FromVariable, FromVariableRef, Variable, VariableFloatType, VariableIntType, VariableSignedIntType,
    VariableType, VariableUnsignedIntType,
};

#[test]
fn into() {
    let a = 10_i16;

    let b: Variable = a.into();
    assert_eq!(b, Variable::I16(10));
}

#[test]
fn parse() {
    let mut a: Variable = 10_i16.into();

    assert_eq!(a.clone().parse::<i16>(), 10);
    assert_eq!(a.parse_ref::<i16>(), &10);
    assert_eq!(a.parse_mut::<i16>(), &mut 10);

    match a.clone().try_parse::<i16>() {
        Ok(b) => assert_eq!(b, 10),
        Err(e) => panic!("{:?}", e),
    };

    match a.try_parse_ref::<i16>() {
        Ok(b) => assert_eq!(b, &10),
        Err(e) => panic!("{:?}", e),
    };

    match a.try_parse_mut::<i16>() {
        Ok(b) => assert_eq!(b, &mut 10),
        Err(e) => panic!("{:?}", e),
    };
}

#[test]
fn parse_of_another_type_names_the_expected_type() {
    let a: Variable = 10_i16.into();
    let e: ParseVariableError = a.clone().try_parse::<i32>().unwrap_err();
    assert_eq!(e.ty(), "I32");
    assert_eq!(a.try_parse_ref::<bool>().unwrap_err().ty(), "Bool");
    assert_eq!(a.clone().try_parse::<String>().unwrap_err().ty(), "String");
    assert_eq!(a.try_parse_ref::<Vec<Variable>>().unwrap_err().ty(), "Vec<Variable>");
    assert_eq!(ParseVariableError::new("U8").ty(), "U8");
}

#[test]
fn parse_mut_changes_the_variable() {
    let mut a: Variable = 7_u64.into();
    *a.parse_mut::<u64>() = 8;
    assert_eq!(a, Variable::U64(8));
    let mut list = Variable::list(vec![Variable::Null]);
    list.parse_mut::<Vec<Variable>>().push(Variable::Bool(true));
    assert_eq!(list, Variable::List(vec![Variable::Null, Variable::Bool(true)]));
    let mut text = Variable::text("a");
    assert!(text.try_parse_mut::<i8>().is_err());
    assert_eq!(text, Variable::text("a"));
}

#[test]
fn constructors_pick_the_variant() {
    assert_eq!(Variable::from(1_i8), Variable::I8(1));
    assert_eq!(Variable::from(-2_i32), Variable::I32(-2));
    assert_eq!(Variable::from(3_i64), Variable::I64(3));
    assert_eq!(Variable::from(4_u8), Variable::U8(4));
    assert_eq!(Variable::from(5_u16), Variable::U16(5));
    assert_eq!(Variable::from(6_u32), Variable::U32(6));
    assert_eq!(Variable::from(true), Variable::Bool(true));
    assert_eq!(Variable::from('x'), Variable::Char('x'));
    assert_eq!(Variable::from("abc".to_string()), Variable::String("abc".to_string()));
    assert_eq!(Variable::text("abc"), Variable::String("abc".to_string()));
    assert_eq!(Variable::default(), Variable::Null);
    assert!(Variable::Null.is_null());
    assert!(!Variable::Bool(false).is_null());
}

#[test]
fn floats_are_held_by_their_bits() {
    let half = Variable::F32(0.5_f32.to_bits());
    let same = Variable::F32(0.5_f32.to_bits());
    let wide = Variable::F64(0.5_f64.to_bits());
    assert!(half.equals(&same));
    assert!(!half.equals(&wide));
    match half {
        Variable::F32(bits) => assert_eq!(f32::from_bits(bits), 0.5),
        _ => unreachable!(),
    }
}

#[test]
fn equality_is_structural() {
    let a = Variable::list(vec![Variable::I8(1), Variable::text("x"), Variable::list(vec![])]);
    let b = Variable::list(vec![Variable::I8(1), Variable::text("x"), Variable::list(vec![])]);
    let c = Variable::list(vec![Variable::I8(1), Variable::text("y"), Variable::list(vec![])]);
    let d = Variable::list(vec![Variable::I8(1), Variable::text("x")]);
    assert!(a.equals(&b));
    assert!(!a.equals(&c));
    assert!(!a.equals(&d));
    assert!(!Variable::I8(1).equals(&Variable::I16(1)));
    assert!(Variable::Null.equals(&Variable::Null));
    assert!(a.clone().equals(&a));
}

#[test]
fn order_is_within_one_kind_only() {
    assert_eq!(Variable::I32(-1).partial_compare(&Variable::I32(5)), Some(-1));
    assert_eq!(Variable::U64(u64::MAX).partial_compare(&Variable::U64(0)), Some(1));
    assert_eq!(Variable::Bool(false).partial_compare(&Variable::Bool(true)), Some(-1));
    assert_eq!(Variable::Char('b').partial_compare(&Variable::Char('b')), Some(0));
    assert_eq!(Variable::Null.partial_compare(&Variable::Null), Some(0));
    assert_eq!(Variable::I32(1).partial_compare(&Variable::I64(1)), None);
    assert_eq!(Variable::text("a").partial_compare(&Variable::text("b")), None);
}

#[test]
fn type_codes_and_their_names() {
    let i32_code = VariableType::signed(VariableSignedIntType::I32);
    assert_eq!(i32_code, VariableType::Int(VariableIntType::Signed(VariableSignedIntType::I32)));
    assert_eq!(i32_code.name(), "I32");
    assert_eq!(VariableType::unsigned(VariableUnsignedIntType::U8).name(), "U8");
    assert_eq!(VariableType::float(VariableFloatType::F64).name(), "F64");
    assert_eq!(VariableType::Let.name(), "Let");
    assert_eq!(VariableType::List.name(), "List");
    assert_eq!(VariableType::default(), VariableType::Let);
    assert_eq!(VariableIntType::default(), VariableIntType::Signed(VariableSignedIntType::I32));
    assert_eq!(VariableUnsignedIntType::default(), VariableUnsignedIntType::U32);
    assert_eq!(VariableFloatType::default(), VariableFloatType::F32);
}

#[test]
fn any_type_fits_every_type() {
    let string = VariableType::String;
    assert!(string.fits(&VariableType::String));
    assert!(!string.fits(&VariableType::Bool));
    assert!(VariableType::Let.fits(&VariableType::Bool));
    assert!(string.fits(&VariableType::Let));
}

#[test]
fn arg_and_request_hold_what_they_are_given() {
    let arg = Arg::new("a", VariableType::Bool);
    assert_eq!(arg.name, "a");
    assert_eq!(arg.ty, VariableType::Bool);
    assert_eq!(arg.to_string(), "a: Bool");
    assert!(arg.equals(&arg.clone()));
    assert_eq!(Arg::default(), Arg::new("arg", VariableType::Let));
    let request = Request::new("echo", vec![VariableType::String], Some(VariableType::String));
    assert_eq!(request.name, "echo");
    assert_eq!(request.inputs, vec![VariableType::String]);
    assert_eq!(request.output, Some(VariableType::String));
    assert_eq!(request.clone(), request);
}

#[test]
fn from_variable_by_type() {
    assert_eq!(<bool as FromVariable>::from_var(Variable::Bool(true)).unwrap(), true);
    assert_eq!(<char as FromVariableRef>::from_var_ref(&Variable::Char('c')).unwrap(), &'c');
    assert_eq!(<String as FromVariable>::from_var(Variable::text("s")).unwrap(), "s");
    assert!(<u8 as FromVariable>::from_var(Variable::I8(1)).is_err());
}

#[test]
fn a_list_is_taken_as_values_of_one_type() {
    let list = Variable::List(vec![Variable::I16(10), Variable::I16(-3)]);
    assert_eq!(list.parse::<Vec<i16>>(), vec![10, -3]);
    let empty = Variable::List(vec![]);
    assert_eq!(empty.parse::<Vec<bool>>(), Vec::<bool>::new());
    let nested = Variable::List(vec![
        Variable::List(vec![Variable::text("a")]),
        Variable::List(vec![]),
    ]);
    assert_eq!(nested.parse::<Vec<Vec<String>>>(), vec![vec!["a".to_string()], vec![]]);
    let kept = Variable::List(vec![Variable::Bool(true), Variable::Null]);
    assert_eq!(kept.parse::<Vec<Variable>>(), vec![Variable::Bool(true), Variable::Null]);

    // The first variable of another type decides the error.
    let mixed = Variable::List(vec![Variable::I16(1), Variable::Bool(true), Variable::Char('c')]);
    assert_eq!(mixed.try_parse::<Vec<i16>>().unwrap_err().ty(), "I16");
    let mixed = Variable::List(vec![Variable::Char('c'), Variable::I16(1)]);
    assert_eq!(mixed.try_parse::<Vec<bool>>().unwrap_err().ty(), "Bool");
    assert_eq!(Variable::I16(1).try_parse::<Vec<i16>>().unwrap_err().ty(), "Vec<T>");
}
