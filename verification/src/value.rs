//! Numbers as the machine carries them, and the pool that holds them.

use vstd::prelude::*;

verus! {

/// A number, carried as the expression that denotes it.
///
/// The machine does no rounding of its own. A literal is the span of its
/// lexeme in the source text, and each arithmetic instruction builds the
/// node of its operation over its operands, left operand first. The
/// embedding program gives a value its IEEE-754 double-precision reading:
/// it reads each lexeme as a decimal and applies each operation once.
#[derive(Debug, PartialEq, Eq)]
pub enum Value {
    /// The number zero.
    Zero,
    /// The literal written at `start .. start + length` of the source.
    Literal { start: usize, length: usize },
    /// The negation of a number.
    Negate(Box<Value>),
    /// Left operand plus right operand.
    Add(Box<Value>, Box<Value>),
    /// Left operand minus right operand.
    Subtract(Box<Value>, Box<Value>),
    /// Left operand times right operand.
    Multiply(Box<Value>, Box<Value>),
    /// Left operand divided by right operand.
    Divide(Box<Value>, Box<Value>),
}

/// A growing pool of numbers, addressed by position.
#[derive(Debug)]
pub struct ValueArray {
    pub values: Vec<Value>,
}

impl Value {
    /// A copy of the number: the same expression, node for node.
    pub fn duplicate(&self) -> (r: Value)
        ensures
            r == *self,
        decreases *self,
    {
        match self {
            Value::Zero => Value::Zero,
            Value::Literal { start, length } => Value::Literal { start: *start, length: *length },
            Value::Negate(a) => Value::Negate(Box::new(a.duplicate())),
            Value::Add(a, b) => Value::Add(Box::new(a.duplicate()), Box::new(b.duplicate())),
            Value::Subtract(a, b) => Value::Subtract(
                Box::new(a.duplicate()),
                Box::new(b.duplicate()),
            ),
            Value::Multiply(a, b) => Value::Multiply(
                Box::new(a.duplicate()),
                Box::new(b.duplicate()),
            ),
            Value::Divide(a, b) => Value::Divide(Box::new(a.duplicate()), Box::new(b.duplicate())),
        }
    }
}

impl ValueArray {
    /// A copy of the pool: the same numbers in the same order.
    pub fn duplicate(&self) -> (r: ValueArray)
        ensures
            r.values@ == self.values@,
    {
        let mut values: Vec<Value> = Vec::new();
        let mut i: usize = 0;
        while i < self.values.len()
            invariant
                i <= self.values.len(),
                values@ == self.values@.subrange(0, i as int),
            decreases self.values.len() - i,
        {
            values.push(self.values[i].duplicate());
            i += 1;
            assert(values@ =~= self.values@.subrange(0, i as int));
        }
        assert(values@ =~= self.values@);
        ValueArray { values }
    }
}

/// An empty pool.
pub fn init_value_array() -> (array: ValueArray)
    ensures
        array.values@ == Seq::<Value>::empty(),
{
    ValueArray { values: Vec::new() }
}

/// Appends a number to the pool; the numbers already there keep their
/// positions.
pub fn write_value_array(array: &mut ValueArray, value: Value)
    ensures
        final(array).values@ == old(array).values@.push(value),
{
    array.values.push(value);
}

} // verus!
