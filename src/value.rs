use vstd::prelude::*;

verus! {

/// An output value of an execution. Object entries keep the order of the
/// selection.
#[derive(Debug, PartialEq)]
pub enum Value {
    Null,
    Int(i64),
    String(String),
    Boolean(bool),
    List(Vec<Value>),
    Object(Vec<(String, Value)>),
}

} // verus!
