//! Constant values and their bit-exact comparison.

use vstd::prelude::*;

verus! {

/// A value that can stand in a prototype's constant table.
#[derive(Clone, Debug, PartialEq, Eq)]
pub enum Value {
    Nil,
    Boolean(bool),
    Integer(i64),
    /// A 64-bit float, held as its IEEE 754 bit pattern.
    Number(u64),
    /// A string, held as its bytes.
    String(Vec<u8>),
    /// A table of the runtime heap, held as its handle.
    Table(u64),
    /// A closure of the runtime heap, held as its handle.
    Closure(u64),
}

/// What a [`Value`] holds, with a string as the sequence of its bytes.
pub enum ValueView {
    Nil,
    Boolean(bool),
    Integer(i64),
    Number(u64),
    String(Seq<u8>),
    Table(u64),
    Closure(u64),
}

impl View for Value {
    type V = ValueView;

    open spec fn view(&self) -> ValueView {
        match *self {
            Value::Nil => ValueView::Nil,
            Value::Boolean(b) => ValueView::Boolean(b),
            Value::Integer(i) => ValueView::Integer(i),
            Value::Number(n) => ValueView::Number(n),
            Value::String(s) => ValueView::String(s@),
            Value::Table(t) => ValueView::Table(t),
            Value::Closure(c) => ValueView::Closure(c),
        }
    }
}

/// The views of a sequence of values, in order.
pub open spec fn value_views(values: Seq<Value>) -> Seq<ValueView> {
    Seq::new(values.len(), |i: int| values[i]@)
}

/// A copy of `bytes`.
pub fn copy_bytes(bytes: &Vec<u8>) -> (r: Vec<u8>)
    ensures
        r@ == bytes@,
{
    let mut r: Vec<u8> = Vec::new();
    let mut i: usize = 0;
    while i < bytes.len()
        invariant
            i <= bytes.len(),
            r@ == bytes@.take(i as int),
        decreases bytes.len() - i,
    {
        r.push(bytes[i]);
        assert(bytes@.take(i as int).push(bytes@[i as int]) =~= bytes@.take(i + 1));
        i += 1;
    }
    assert(bytes@.take(bytes.len() as int) =~= bytes@);
    r
}

/// Whether `a` and `b` hold the same bytes.
pub fn bytes_equal(a: &Vec<u8>, b: &Vec<u8>) -> (r: bool)
    ensures
        r == (a@ == b@),
{
    if a.len() != b.len() {
        return false;
    }
    let mut i: usize = 0;
    while i < a.len()
        invariant
            i <= a.len(),
            a.len() == b.len(),
            forall|j: int| 0 <= j < i ==> a@[j] == b@[j],
        decreases a.len() - i,
    {
        if a[i] != b[i] {
            return false;
        }
        i += 1;
    }
    assert(a@ =~= b@);
    true
}

impl Value {
    /// A copy of this value.
    pub fn duplicate(&self) -> (r: Value)
        ensures
            r@ == self@,
    {
        match self {
            Value::Nil => Value::Nil,
            Value::Boolean(b) => Value::Boolean(*b),
            Value::Integer(i) => Value::Integer(*i),
            Value::Number(n) => Value::Number(*n),
            Value::String(s) => Value::String(copy_bytes(s)),
            Value::Table(t) => Value::Table(*t),
            Value::Closure(c) => Value::Closure(*c),
        }
    }
}

/// A value compared bit for bit: two numbers are equal only when their bit
/// patterns are, so that a negative zero differs from a positive one and a
/// NaN equals itself.
pub struct ConstantValue(pub Value);

impl ConstantValue {
    /// Whether the two values are bit for bit the same.
    pub fn eq(&self, other: &ConstantValue) -> (r: bool)
        ensures
            r == (self.0@ == other.0@),
    {
        match (&self.0, &other.0) {
            (Value::Nil, Value::Nil) => true,
            (Value::Nil, _) => false,
            (Value::Boolean(a), Value::Boolean(b)) => *a == *b,
            (Value::Boolean(_), _) => false,
            (Value::Integer(a), Value::Integer(b)) => *a == *b,
            (Value::Integer(_), _) => false,
            (Value::Number(a), Value::Number(b)) => *a == *b,
            (Value::Number(_), _) => false,
            (Value::String(a), Value::String(b)) => bytes_equal(a, b),
            (Value::String(_), _) => false,
            (Value::Table(a), Value::Table(b)) => *a == *b,
            (Value::Table(_), _) => false,
            (Value::Closure(a), Value::Closure(b)) => *a == *b,
            (Value::Closure(_), _) => false,
        }
    }
}

} // verus!
