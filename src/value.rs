use vstd::prelude::*;

verus! {

/// A number of the value tree: a signed integer, or a float held as its
/// IEEE-754 bit pattern.  The two tags never compare equal to each other.
#[derive(Clone, Copy, Debug, PartialEq, Eq, Structural)]
pub enum Number {
    Integer(i64),
    Float(u64),
}

/// The typed value tree.
///
/// `Tuple` and `Struct` carry an optional name; `Struct` keeps its fields in
/// insertion order and `Mapping` keeps its entries in insertion order.
#[derive(Debug)]
pub enum Value {
    String(String),
    Char(char),
    Bool(bool),
    Number(Number),
    Unit,
    Option(Option<Box<Value>>),
    Sequence(Vec<Value>),
    Tuple(Option<String>, Vec<Value>),
    Struct(Option<String>, Vec<(String, Value)>),
    Mapping(Vec<(Value, Value)>),
    Include(String),
}

/// The mathematical content of a [`Value`].
pub enum ValueModel {
    Str(Seq<char>),
    Char(char),
    Bool(bool),
    Number(Number),
    Unit,
    Opt(Option<Box<ValueModel>>),
    Sequence(Seq<ValueModel>),
    Tuple(Option<Seq<char>>, Seq<ValueModel>),
    Struct(Option<Seq<char>>, Seq<(Seq<char>, ValueModel)>),
    Mapping(Seq<(ValueModel, ValueModel)>),
    Include(Seq<char>),
}

pub open spec fn name_view(n: Option<String>) -> Option<Seq<char>> {
    match n {
        Some(s) => Some(s@),
        None => None,
    }
}

/// The models of a list of values, in order.
pub open spec fn values_view(v: Vec<Value>) -> Seq<ValueModel>
    decreases v,
{
    Seq::new(v.len() as nat, |i: int| if 0 <= i < v.len() { v[i].view() } else { ValueModel::Unit })
}

/// The models of named fields, in order.
pub open spec fn fields_view(v: Vec<(String, Value)>) -> Seq<(Seq<char>, ValueModel)>
    decreases v,
{
    Seq::new(
        v.len() as nat,
        |i: int| if 0 <= i < v.len() { (v[i].0@, v[i].1.view()) } else { (Seq::empty(), ValueModel::Unit) },
    )
}

/// The models of map entries, in order.
pub open spec fn entries_view(v: Vec<(Value, Value)>) -> Seq<(ValueModel, ValueModel)>
    decreases v,
{
    Seq::new(
        v.len() as nat,
        |i: int|
            if 0 <= i < v.len() {
                (v[i].0.view(), v[i].1.view())
            } else {
                (ValueModel::Unit, ValueModel::Unit)
            },
    )
}

impl Value {
    pub open spec fn view(self) -> ValueModel
        decreases self,
    {
        match self {
            Value::String(s) => ValueModel::Str(s@),
            Value::Char(c) => ValueModel::Char(c),
            Value::Bool(b) => ValueModel::Bool(b),
            Value::Number(n) => ValueModel::Number(n),
            Value::Unit => ValueModel::Unit,
            Value::Option(None) => ValueModel::Opt(None),
            Value::Option(Some(b)) => ValueModel::Opt(Some(Box::new((*b).view()))),
            Value::Sequence(items) => ValueModel::Sequence(values_view(items)),
            Value::Tuple(n, items) => ValueModel::Tuple(name_view(n), values_view(items)),
            Value::Struct(n, fields) => ValueModel::Struct(name_view(n), fields_view(fields)),
            Value::Mapping(entries) => ValueModel::Mapping(entries_view(entries)),
            Value::Include(p) => ValueModel::Include(p@),
        }
    }
}

} // verus!
