use vstd::prelude::*;

verus! {

/// A flat, low-level value list: each entry is a tape cell, a constant, or
/// an operation over earlier entries, named by index.
pub struct Lir {
    pub values: Vec<Value>,
}

/// One low-level value.
pub enum Value {
    Cell(i64),
    Const(i64),
    Operation(Operation),
}

/// An arithmetic operation over two earlier values, by index.
pub enum Operation {
    Add(usize, usize),
    Sub(usize, usize),
    Mul(usize, usize),
}

} // verus!
