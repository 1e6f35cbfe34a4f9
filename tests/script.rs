use ogma::vm::context::{Context, Shape, Value};
use ogma::vm::func::Callable;
use ogma::vm::script::Script;
use ogma::vm::trap::Trap;

pub struct Add(pub &'static str, pub &'static str);

fn get_i32(ctx: &Context, name: &str) -> Result<i32, Trap> {
    match ctx.get_global(name, Shape::I32)? {
        Some(Value::I32(v)) => Ok(v),
        _ => Err(Trap::missing_global(name)),
    }
}

impl Callable for Add {
    fn call(&self, ctx: &mut Context) -> Result<(), Trap> {
        let a = get_i32(ctx, self.0)?;
        let b = get_i32(ctx, self.1)?;
        ctx.set_global("c", Value::I32(a + b));
        Ok(())
    }
}

pub struct Fail;

impl Callable for Fail {
    fn call(&self, ctx: &mut Context) -> Result<(), Trap> {
        ctx.set_global("failed", Value::Bool(true));
        Err(Trap::runtime("failure"))
    }
}

#[test]
fn func_add() {
    let mut ctx = Context::new();
    ctx.set_global("a", Value::I32(1));
    ctx.set_global("b", Value::I32(2));
    Add("a", "b").call(&mut ctx).unwrap();
    assert_eq!(ctx.get_global("c", Shape::I32).unwrap(), Some(Value::I32(3)));
}

#[test]
fn script_exec() {
    let mut script = Script::new();
    script.push(Add("a", "b"));
    script.push(Add("c", "a"));
    script.push(Add("c", "c"));
    let mut instance = script.instance();
    instance.ctx_mut().set_global("a", Value::I32(1));
    instance.ctx_mut().set_global("b", Value::I32(1));
    instance.exec().unwrap();
    assert_eq!(
        instance.ctx().get_global("c", Shape::I32).unwrap(),
        Some(Value::I32(6))
    );
}

#[test]
fn empty_script_succeeds_at_once() {
    let script: Script<Add> = Script::new();
    let mut instance = script.instance();
    instance.ctx_mut().set_global("a", Value::I32(1));
    assert_eq!(instance.exec(), Ok(()));
    assert_eq!(instance.ctx().get_global("a", Shape::I32), Ok(Some(Value::I32(1))));
    assert_eq!(instance.ctx().get_global("c", Shape::I32), Ok(None));
}

#[test]
fn stepping_past_the_end() {
    let script = Script::from_vec(vec![Add("a", "a")]);
    let mut instance = script.instance();
    instance.ctx_mut().set_global("a", Value::I32(2));
    assert_eq!(instance.step(), Ok(()));
    assert_eq!(instance.step(), Err(Trap::ScriptOutOfBounds));
    assert_eq!(instance.step(), Err(Trap::ScriptOutOfBounds));
    assert_eq!(instance.exec(), Ok(()));
    assert_eq!(instance.ctx().get_global("c", Shape::I32), Ok(Some(Value::I32(4))));
}

#[test]
fn failure_stops_without_rollback() {
    let script = Script::from_vec(vec![Add("a", "a"), Add("missing", "a"), Add("c", "c")]);
    let mut instance = script.instance();
    instance.ctx_mut().set_global("a", Value::I32(5));
    assert_eq!(instance.exec(), Err(Trap::MissingGlobal("missing".to_string())));
    assert_eq!(instance.ctx().get_global("c", Shape::I32), Ok(Some(Value::I32(10))));
}

#[test]
fn runtime_failure_keeps_store() {
    let script = Script::from_vec(vec![Fail]);
    let mut instance = script.instance();
    assert_eq!(instance.exec(), Err(Trap::Runtime("failure".to_string())));
    assert_eq!(
        instance.ctx().get_global("failed", Shape::Bool),
        Ok(Some(Value::Bool(true)))
    );
}

#[test]
fn reset_clears_the_session() {
    let script = Script::from_vec(vec![Add("a", "a")]);
    let mut instance = script.instance();
    instance.ctx_mut().set_global("a", Value::I32(3));
    instance.exec().unwrap();
    instance.reset();
    assert_eq!(instance.ctx().get_global("c", Shape::I32), Ok(None));
    instance.ctx_mut().set_global("a", Value::I32(1));
    instance.exec().unwrap();
    assert_eq!(instance.ctx().get_global("c", Shape::I32), Ok(Some(Value::I32(2))));
}

#[test]
fn script_positions() {
    let script = Script::from_vec(vec![Add("a", "b")]);
    assert_eq!(script.len(), 1);
    assert!(script.get(0).is_some());
    assert!(script.get(1).is_none());
}
