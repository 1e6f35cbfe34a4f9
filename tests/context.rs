use ogma::vm::context::{Context, Shape, Value};
use ogma::vm::trap::Trap;

#[test]
fn get_global() {
    let mut ctx = Context::new();
    ctx.set_global("hello", Value::U32(1));
    assert_eq!(ctx.get_global("hello", Shape::U32), Ok(Some(Value::U32(1))));
    assert_eq!(ctx.get_global("cool", Shape::U32), Ok(None));
}

#[test]
fn globals() {
    let mut ctx = Context::new();
    ctx.set_global("hello", Value::U32(1));
    assert_eq!(ctx.get_global("hello", Shape::U32), Ok(Some(Value::U32(1))));
}

#[test]
fn get_global_mut() {
    let mut ctx = Context::new();
    ctx.set_global("hello", Value::U32(1));
    let num = ctx.get_global_mut("hello", Shape::U32).unwrap().unwrap();
    *num = Value::U32(2);
    assert_eq!(ctx.get_global("hello", Shape::U32), Ok(Some(Value::U32(2))));
}

#[test]
fn delete_global() {
    let mut ctx = Context::new();
    ctx.set_global("hello", Value::U32(1));
    ctx.delete_global("hello");
    assert_eq!(ctx.get_global("hello", Shape::U32), Ok(None));
}

#[test]
fn remove_global() {
    let mut ctx = Context::new();
    ctx.set_global("hello", Value::U32(1));
    assert_eq!(ctx.remove_global("hello", Shape::U32), Ok(Some(Value::U32(1))));
    assert_eq!(ctx.get_global("hello", Shape::U32), Ok(None));
    assert_eq!(ctx.remove_global("hello", Shape::U32), Ok(None));
    assert_eq!(ctx.get_global("hello", Shape::U32), Ok(None));
}

#[test]
fn replace_global() {
    let mut ctx = Context::new();
    assert_eq!(ctx.replace_global("hello", Value::U32(1), Shape::U32), Ok(None));
    assert_eq!(ctx.get_global("hello", Shape::U32), Ok(Some(Value::U32(1))));
    assert_eq!(
        ctx.replace_global("hello", Value::U32(2), Shape::U32),
        Ok(Some(Value::U32(1)))
    );
    assert_eq!(ctx.get_global("hello", Shape::U32), Ok(Some(Value::U32(2))));
}

#[test]
fn wrong_shape_is_a_mismatch() {
    let mut ctx = Context::new();
    ctx.set_global("hello", Value::U32(1));
    assert_eq!(
        ctx.get_global("hello", Shape::I32),
        Err(Trap::DowncastError(Shape::I32))
    );
    assert!(matches!(
        ctx.get_global_mut("hello", Shape::Bool),
        Err(Trap::DowncastError(Shape::Bool))
    ));
    assert_eq!(
        ctx.replace_global("hello", Value::Bool(true), Shape::I64),
        Err(Trap::DowncastError(Shape::I64))
    );
    assert_eq!(ctx.get_global("hello", Shape::Bool), Ok(Some(Value::Bool(true))));
    assert_eq!(
        ctx.remove_global("hello", Shape::U32),
        Err(Trap::DowncastError(Shape::U32))
    );
    assert_eq!(ctx.get_global("hello", Shape::Bool), Ok(None));
}

#[test]
fn missing_name_is_not_present() {
    let ctx = Context::new();
    assert_eq!(ctx.get_global("nothing", Shape::Bool), Ok(None));
}

#[test]
fn value_shapes() {
    assert_eq!(Value::Bool(false).shape(), Shape::Bool);
    assert_eq!(Value::I32(1).shape(), Shape::I32);
    assert_eq!(Value::I64(1).shape(), Shape::I64);
    assert_eq!(Value::U32(1).shape(), Shape::U32);
}

#[test]
fn trap_messages() {
    assert_eq!(Trap::runtime("boom"), Trap::Runtime("boom".to_string()));
    assert_eq!(Trap::missing_global("x"), Trap::MissingGlobal("x".to_string()));
}

#[test]
fn trap_descriptions() {
    assert_eq!(
        Trap::DowncastError(Shape::I32).message(),
        "could not convert to type: i32"
    );
    assert_eq!(Trap::ScriptOutOfBounds.message(), "script out of bounds");
    assert_eq!(
        Trap::missing_global("x").message(),
        "could not find global variable: x"
    );
    assert_eq!(Trap::runtime("boom").message(), "boom");
    assert_eq!(Shape::U32.name(), "u32");
}

#[test]
fn string_values() {
    let mut ctx = Context::new();
    ctx.set_global("name", Value::Str("ogma".to_string()));
    assert_eq!(
        ctx.get_global("name", Shape::Str),
        Ok(Some(Value::Str("ogma".to_string())))
    );
    assert_eq!(
        ctx.get_global("name", Shape::I32),
        Err(Trap::DowncastError(Shape::I32))
    );
    assert_eq!(Value::Str(String::new()).shape(), Shape::Str);
    assert_eq!(Shape::Str.name(), "String");
    assert_eq!(Value::Str("x".to_string()).copy(), Value::Str("x".to_string()));
}
