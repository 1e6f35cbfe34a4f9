//! The store of named variables that a script's commands share.
use vstd::prelude::*;
use crate::vm::trap::Trap;

verus! {

/// The shape of a stored or decoded value.
#[derive(Clone, Copy, Debug, PartialEq, Eq, Structural)]
pub enum Shape {
    Bool,
    I32,
    I64,
    U32,
    Str,
}

/// A value tagged with its shape.
#[derive(Clone, Debug, PartialEq, Eq)]
pub enum Value {
    Bool(bool),
    I32(i32),
    I64(i64),
    U32(u32),
    Str(String),
}

impl Shape {
    /// The name of the Rust type of this shape.
    pub fn name(&self) -> (r: &'static str)
        ensures
            r@ == shape_name(*self),
    {
        match self {
            Shape::Bool => "bool",
            Shape::I32 => "i32",
            Shape::I64 => "i64",
            Shape::U32 => "u32",
            Shape::Str => "String",
        }
    }
}

/// The name of the Rust type of shape `s`.
pub open spec fn shape_name(s: Shape) -> Seq<char> {
    match s {
        Shape::Bool => "bool"@,
        Shape::I32 => "i32"@,
        Shape::I64 => "i64"@,
        Shape::U32 => "u32"@,
        Shape::Str => "String"@,
    }
}

impl Value {
    /// The shape that the value was stored as.
    pub open spec fn shape_of(self) -> Shape {
        match self {
            Value::Bool(_) => Shape::Bool,
            Value::I32(_) => Shape::I32,
            Value::I64(_) => Shape::I64,
            Value::U32(_) => Shape::U32,
            Value::Str(_) => Shape::Str,
        }
    }

    /// A copy of the value.
    pub fn copy(&self) -> (r: Value)
        ensures
            r == *self,
    {
        match self {
            Value::Bool(b) => Value::Bool(*b),
            Value::I32(x) => Value::I32(*x),
            Value::I64(x) => Value::I64(*x),
            Value::U32(x) => Value::U32(*x),
            Value::Str(t) => Value::Str(t.clone()),
        }
    }

    /// The shape that the value was stored as.
    pub fn shape(&self) -> (r: Shape)
        ensures
            r == self.shape_of(),
    {
        match self {
            Value::Bool(_) => Shape::Bool,
            Value::I32(_) => Shape::I32,
            Value::I64(_) => Shape::I64,
            Value::U32(_) => Shape::U32,
            Value::Str(_) => Shape::Str,
        }
    }
}

/// The variables of one execution session, by name.
///
/// The variables live in a `hashbrown::HashMap`, hidden from verification
/// (its allocator parameter is bounded by a trait of a crate this library
/// does not name); what it holds is `globals_of`, and the `map_` functions
/// below are the only code that touches it.
#[verifier::external_body]
pub struct Context {
    globals: hashbrown::HashMap<String, Value>,
}

/// The variables that a store holds.
pub uninterp spec fn globals_of(c: Context) -> Map<Seq<char>, Value>;

impl View for Context {
    type V = Map<Seq<char>, Value>;

    open spec fn view(&self) -> Map<Seq<char>, Value> {
        globals_of(*self)
    }
}

/// Relies on `hashbrown::HashMap::new`: an empty map.
#[verifier::external_body]
fn map_new() -> (r: Context)
    ensures
        globals_of(r) =~= Map::empty(),
{
    Context { globals: hashbrown::HashMap::new() }
}

/// Relies on `hashbrown::HashMap::insert`: the key now maps to the value,
/// and the value it mapped to before, if any, is returned.
#[verifier::external_body]
fn map_insert(c: &mut Context, key: &str, value: Value) -> (r: Option<Value>)
    ensures
        globals_of(*final(c)) == globals_of(*old(c)).insert(key@, value),
        match r {
            Some(v) => globals_of(*old(c)).contains_key(key@) && globals_of(*old(c))[key@] == v,
            None => !globals_of(*old(c)).contains_key(key@),
        },
{
    c.globals.insert(key.to_owned(), value)
}

/// Relies on `hashbrown::HashMap::get`: the value that the key maps to.
#[verifier::external_body]
fn map_get<'c>(c: &'c Context, key: &str) -> (r: Option<&'c Value>)
    ensures
        match r {
            Some(v) => globals_of(*c).contains_key(key@) && globals_of(*c)[key@] == *v,
            None => !globals_of(*c).contains_key(key@),
        },
{
    c.globals.get(key)
}

/// Relies on `hashbrown::HashMap::get_mut`: a place that holds the value the
/// key maps to; what is written there is what the key maps to afterwards.
#[verifier::external_body]
fn map_get_mut<'c>(c: &'c mut Context, key: &str) -> (r: Option<&'c mut Value>)
    ensures
        match r {
            Some(v) => globals_of(*old(c)).contains_key(key@) && globals_of(*old(c))[key@] == *v && globals_of(*final(c)) == globals_of(*old(c)).insert(key@, *final(v)),
            None => !globals_of(*old(c)).contains_key(key@) && globals_of(*final(c)) == globals_of(*old(c)),
        },
{
    c.globals.get_mut(key)
}

/// Relies on `hashbrown::HashMap::remove`: the key no longer maps to
/// anything, and the value it mapped to, if any, is returned.
#[verifier::external_body]
fn map_remove(c: &mut Context, key: &str) -> (r: Option<Value>)
    ensures
        globals_of(*final(c)) == globals_of(*old(c)).remove(key@),
        match r {
            Some(v) => globals_of(*old(c)).contains_key(key@) && globals_of(*old(c))[key@] == v,
            None => !globals_of(*old(c)).contains_key(key@),
        },
{
    c.globals.remove(key)
}

/// What fetching a value stored as `stored` with shape `shape` gives: no
/// value where none is stored, the value where the shapes agree, and a
/// shape mismatch otherwise.
pub open spec fn fetched(stored: Option<Value>, shape: Shape) -> Result<Option<Value>, Trap> {
    match stored {
        None => Ok(None),
        Some(v) => if v.shape_of() == shape {
            Ok(Some(v))
        } else {
            Err(Trap::DowncastError(shape))
        },
    }
}

/// The value stored under `key`, if any.
pub open spec fn lookup(m: Map<Seq<char>, Value>, key: Seq<char>) -> Option<Value> {
    if m.contains_key(key) {
        Some(m[key])
    } else {
        None
    }
}

/// Checks the shape of a value taken from the store.
fn check_shape(v: Option<Value>, shape: Shape) -> (r: Result<Option<Value>, Trap>)
    ensures
        r == fetched(v, shape),
{
    match v {
        None => Ok(None),
        Some(v) => if v.shape() == shape {
            Ok(Some(v))
        } else {
            Err(Trap::DowncastError(shape))
        },
    }
}

impl Context {
    /// An empty store.
    pub fn new() -> (r: Context)
        ensures
            r@ == Map::<Seq<char>, Value>::empty(),
    {
        map_new()
    }

    /// Stores `value` under `key`, replacing what was there.
    pub fn set_global(&mut self, key: &str, value: Value)
        ensures
            final(self)@ == old(self)@.insert(key@, value),
    {
        let _ = map_insert(self, key, value);
    }

    /// Stores `value` under `key` and returns what was stored there before,
    /// checked against `shape`. The store changes whatever the check gives.
    pub fn replace_global(&mut self, key: &str, value: Value, shape: Shape) -> (r: Result<
        Option<Value>,
        Trap,
    >)
        ensures
            final(self)@ == old(self)@.insert(key@, value),
            r == fetched(lookup(old(self)@, key@), shape),
    {
        let old_value = map_insert(self, key, value);
        check_shape(old_value, shape)
    }

    /// The value stored under `key`: `Ok(None)` where there is none, and a
    /// shape mismatch where it is stored with another shape than `shape`.
    pub fn get_global(&self, key: &str, shape: Shape) -> (r: Result<Option<Value>, Trap>)
        ensures
            r == fetched(lookup(self@, key@), shape),
    {
        match map_get(self, key) {
            None => Ok(None),
            Some(v) => check_shape(Some(v.copy()), shape),
        }
    }

    /// A place that holds the value stored under `key`, where one of shape
    /// `shape` is stored; what is written there is stored afterwards.
    pub fn get_global_mut<'c>(&'c mut self, key: &str, shape: Shape) -> (r: Result<
        Option<&'c mut Value>,
        Trap,
    >)
        ensures
            match r {
                Ok(Some(v)) => lookup(old(self)@, key@) == Some(*v) && v.shape_of() == shape
                    && final(self)@ == old(self)@.insert(key@, *final(v)),
                Ok(None) => lookup(old(self)@, key@) is None && final(self)@ == old(self)@,
                Err(e) => fetched(lookup(old(self)@, key@), shape) == Err::<Option<Value>, Trap>(e)
                    && final(self)@ == old(self)@,
            },
    {
        match map_get_mut(self, key) {
            None => Ok(None),
            Some(v) => if v.shape() == shape {
                Ok(Some(v))
            } else {
                Err(Trap::DowncastError(shape))
            },
        }
    }

    /// Removes what is stored under `key`.
    pub fn delete_global(&mut self, key: &str)
        ensures
            final(self)@ == old(self)@.remove(key@),
    {
        let _ = map_remove(self, key);
    }

    /// Removes what is stored under `key` and returns it, checked against
    /// `shape`. The store changes whatever the check gives.
    pub fn remove_global(&mut self, key: &str, shape: Shape) -> (r: Result<Option<Value>, Trap>)
        ensures
            final(self)@ == old(self)@.remove(key@),
            r == fetched(lookup(old(self)@, key@), shape),
    {
        let v = map_remove(self, key);
        check_shape(v, shape)
    }
}

} // verus!
