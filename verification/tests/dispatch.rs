use bmath::interpreter::Context;
use bmath::objects::{
    CallError, Callable, CallableExtension, Integer, Object, ObjectType, PrimitiveFunction, Real,
};

fn sin_bits(x: u64) -> u64 {
    f64::from_bits(x).sin().to_bits()
}

fn cos_bits(x: u64) -> u64 {
    f64::from_bits(x).cos().to_bits()
}

fn sin_primitive() -> PrimitiveFunction<fn(u64) -> u64> {
    PrimitiveFunction { name: "sin".to_string(), function: sin_bits }
}

fn real_arg(x: f64) -> Object {
    Object::Real(Real { bits: x.to_bits() })
}

#[test]
fn primitive_declares_one_real_parameter() {
    let p = sin_primitive();
    let params = p.parameters();
    assert_eq!(params.len(), 1);
    assert_eq!(params[0].name, "arg0");
    assert_eq!(params[0].expected_type, ObjectType::Real);
}

#[test]
fn one_real_argument_invokes_the_wrapped_function() {
    let p = sin_primitive();
    let result = p.call(vec![real_arg(1.5)]).ok().unwrap();
    assert_eq!(result, vec![Object::Real(Real { bits: 1.5f64.sin().to_bits() })]);
}

#[test]
fn zero_arguments_is_a_type_mismatch() {
    let p = sin_primitive();
    assert_eq!(p.call(Vec::new()), Err(CallError::TypeMismatch));
}

#[test]
fn two_arguments_is_a_type_mismatch() {
    let p = sin_primitive();
    assert_eq!(
        p.call(vec![real_arg(1.0), real_arg(2.0)]),
        Err(CallError::TypeMismatch)
    );
}

#[test]
fn one_integer_argument_is_a_type_mismatch() {
    let p = sin_primitive();
    assert_eq!(
        p.call(vec![Object::Integer(Integer { value: 1 })]),
        Err(CallError::TypeMismatch)
    );
}

#[test]
fn context_lookup_finds_registered_function() {
    let context: Context<fn(u64) -> u64> =
        Context::new().function("sin".to_string(), sin_bits as fn(u64) -> u64);
    let p = context.lookup("sin").unwrap();
    let result = p.call(vec![real_arg(0.5)]).ok().unwrap();
    assert_eq!(result, vec![Object::Real(Real { bits: 0.5f64.sin().to_bits() })]);
}

#[test]
fn context_lookup_misses_unregistered_name() {
    let context: Context<fn(u64) -> u64> =
        Context::new().function("sin".to_string(), sin_bits as fn(u64) -> u64);
    assert!(context.lookup("cos").is_none());
    assert!(context.lookup("").is_none());
}

#[test]
fn last_registration_for_a_name_wins() {
    let context: Context<fn(u64) -> u64> = Context::new()
        .function("f".to_string(), sin_bits as fn(u64) -> u64)
        .function("g".to_string(), sin_bits as fn(u64) -> u64)
        .function("f".to_string(), cos_bits as fn(u64) -> u64);
    let p = context.lookup("f").unwrap();
    let result = p.call(vec![real_arg(1.0)]).ok().unwrap();
    assert_eq!(result, vec![Object::Real(Real { bits: 1.0f64.cos().to_bits() })]);
}
