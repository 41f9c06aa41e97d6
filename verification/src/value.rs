use vstd::prelude::*;

verus! {

/// A decoded value tree, in the shape of a JSON document.
#[derive(Debug, PartialEq, Eq)]
pub enum ValueTree {
    Null,
    Bool(bool),
    /// A small unsigned number (8 or 32 bits wide at its source).
    Number(u64),
    /// A 64-bit IEEE-754 number, held as its bit pattern.
    Float(u64),
    Text(String),
    List(Vec<ValueTree>),
    /// Named members in their order.
    Record(Vec<(String, ValueTree)>),
}

/// What a `ValueTree` stands for.
pub enum Value {
    Null,
    Bool(bool),
    Number(nat),
    Float(u64),
    Text(Seq<char>),
    List(Seq<Value>),
    Record(Seq<(Seq<char>, Value)>),
}

impl View for ValueTree {
    type V = Value;

    open spec fn view(&self) -> Value
        decreases self,
    {
        match self {
            ValueTree::Null => Value::Null,
            ValueTree::Bool(b) => Value::Bool(*b),
            ValueTree::Number(n) => Value::Number(*n as nat),
            ValueTree::Float(bits) => Value::Float(*bits),
            ValueTree::Text(s) => Value::Text(s@),
            ValueTree::List(items) => Value::List(
                Seq::new(
                    items@.len(),
                    |i: int|
                        if 0 <= i < items@.len() {
                            items@[i].view()
                        } else {
                            Value::Null
                        },
                ),
            ),
            ValueTree::Record(members) => Value::Record(
                Seq::new(
                    members@.len(),
                    |i: int|
                        if 0 <= i < members@.len() {
                            (members@[i].0@, members@[i].1.view())
                        } else {
                            (Seq::empty(), Value::Null)
                        },
                ),
            ),
        }
    }
}

} // verus!
