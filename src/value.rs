use vstd::prelude::*;

verus! {

/// A typed cell value of a row.
#[derive(Debug, Clone, PartialEq)]
pub enum Value {
    Null,
    Bool(bool),
    I64(i64),
    Str(String),
}

/// A row key, assigned by the backend.
pub type RowKey = u64;

impl Value {
    /// An exact copy of this value.
    pub fn duplicate(&self) -> (r: Value)
        ensures
            r == *self,
    {
        match self {
            Value::Null => Value::Null,
            Value::Bool(b) => Value::Bool(*b),
            Value::I64(n) => Value::I64(*n),
            Value::Str(s) => Value::Str(s.clone()),
        }
    }
}

/// An exact copy of a row.
pub fn copy_row(row: &Vec<Value>) -> (r: Vec<Value>)
    ensures
        r@ == row@,
{
    let mut out: Vec<Value> = Vec::new();
    let mut i: usize = 0;
    while i < row.len()
        invariant
            i <= row@.len(),
            out@ == row@.take(i as int),
        decreases row@.len() - i,
    {
        out.push(row[i].duplicate());
        proof {
            assert(row@.take(i + 1) == row@.take(i as int).push(row@[i as int]));
        }
        i += 1;
    }
    proof {
        assert(row@.take(row@.len() as int) == row@);
    }
    out
}

} // verus!
