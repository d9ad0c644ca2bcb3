//! The values that registers hold.
use vstd::prelude::*;

verus! {

/// What a register holds.
#[derive(Debug, PartialEq)]
pub enum Value {
    /// A boolean, byte, char, short or int.
    Int(i32),
    /// A long.
    Wide(i64),
    /// A string.
    Str(String),
    /// An array of integers.
    Array(Vec<i32>),
    /// Nothing.
    Void,
}

/// What a register holds, by content.
pub enum Datum {
    Int(i32),
    Wide(i64),
    Str(Seq<char>),
    Array(Seq<i32>),
    Void,
}

impl View for Value {
    type V = Datum;

    open spec fn view(&self) -> Datum {
        match self {
            Value::Int(v) => Datum::Int(*v),
            Value::Wide(v) => Datum::Wide(*v),
            Value::Str(s) => Datum::Str(s@),
            Value::Array(a) => Datum::Array(a@),
            Value::Void => Datum::Void,
        }
    }
}

impl Datum {
    /// The name of what it is.
    pub open spec fn kind(self) -> &'static str {
        match self {
            Datum::Int(_) => "Int",
            Datum::Wide(_) => "Wide",
            Datum::Str(_) => "Str",
            Datum::Array(_) => "Array",
            Datum::Void => "Void",
        }
    }
}

impl Default for Value {
    fn default() -> (r: Value)
        ensures
            r@ == Datum::Void,
    {
        Value::Void
    }
}

impl Clone for Value {
    fn clone(&self) -> (r: Value)
        ensures
            r@ == self@,
    {
        match self {
            Value::Int(v) => Value::Int(*v),
            Value::Wide(v) => Value::Wide(*v),
            Value::Str(s) => Value::Str(s.clone()),
            Value::Array(a) => Value::Array(copied(a)),
            Value::Void => Value::Void,
        }
    }
}

fn copied(a: &Vec<i32>) -> (r: Vec<i32>)
    ensures
        r@ == a@,
{
    let mut out: Vec<i32> = Vec::new();
    out.extend_from_slice(a.as_slice());
    assert(out@ =~= a@);
    out
}

/// The contents of registers.
pub open spec fn data(values: Seq<Value>) -> Seq<Datum> {
    values.map_values(|v: Value| v@)
}

/// The name of what a value is.
pub fn value_kind_name(v: &Value) -> (r: &'static str)
    ensures
        r == v@.kind(),
{
    match v {
        Value::Int(_) => "Int",
        Value::Wide(_) => "Wide",
        Value::Str(_) => "Str",
        Value::Array(_) => "Array",
        Value::Void => "Void",
    }
}

} // verus!
