use vstd::prelude::*;

verus! {

/// The class of a tuple that is not the built-in tuple type itself.
#[derive(Debug)]
pub struct TupleClass {
    /// The class's `__name__`.
    pub name: String,
    /// How many immediate base classes it has.
    pub n_bases: usize,
    /// Whether its only base is the built-in tuple type.
    pub base_is_tuple: bool,
    /// Its `_fields` attribute, where that is a tuple of names.
    pub fields: Option<Vec<String>>,
}

/// A host object as reflection sees it.
#[derive(Debug)]
pub enum Object {
    /// The absence marker (`None`).
    Null,
    Bool(bool),
    Int(i64),
    /// A float, held as its IEEE-754 bit pattern.
    Float(u64),
    Str(String),
    List(Vec<Object>),
    /// A tuple; the class is `None` for the built-in tuple type.
    Tuple(Option<TupleClass>, Vec<Object>),
    /// A mapping, as its entries in iteration order.
    Dict(Vec<(Object, Object)>),
    /// Any other instance, by its type's name; the second field holds its
    /// declared fields and their values where its class declares a field
    /// schema (a data class).
    Instance(String, Option<Vec<(String, Object)>>),
}

pub struct ClassModel {
    pub name: Seq<char>,
    pub n_bases: nat,
    pub base_is_tuple: bool,
    pub fields: Option<Seq<Seq<char>>>,
}

/// The mathematical content of an [`Object`].
pub enum ObjectModel {
    Null,
    Bool(bool),
    Int(i64),
    Float(u64),
    Str(Seq<char>),
    List(Seq<ObjectModel>),
    Tuple(Option<ClassModel>, Seq<ObjectModel>),
    Dict(Seq<(ObjectModel, ObjectModel)>),
    Instance(Seq<char>, Option<Seq<(Seq<char>, ObjectModel)>>),
}

pub open spec fn names_view(v: Vec<String>) -> Seq<Seq<char>> {
    Seq::new(v.len() as nat, |i: int| v[i]@)
}

impl TupleClass {
    pub open spec fn view(self) -> ClassModel {
        ClassModel {
            name: self.name@,
            n_bases: self.n_bases as nat,
            base_is_tuple: self.base_is_tuple,
            fields: match self.fields {
                Some(f) => Some(names_view(f)),
                None => None,
            },
        }
    }
}

/// The models of a list of objects, in order.
pub open spec fn objects_view(v: Vec<Object>) -> Seq<ObjectModel>
    decreases v,
{
    Seq::new(v.len() as nat, |i: int| if 0 <= i < v.len() { v[i].view() } else { ObjectModel::Null })
}

/// The models of mapping entries, in order.
pub open spec fn pairs_view(v: Vec<(Object, Object)>) -> Seq<(ObjectModel, ObjectModel)>
    decreases v,
{
    Seq::new(
        v.len() as nat,
        |i: int|
            if 0 <= i < v.len() {
                (v[i].0.view(), v[i].1.view())
            } else {
                (ObjectModel::Null, ObjectModel::Null)
            },
    )
}

/// The models of named attributes, in order.
pub open spec fn attrs_view(v: Vec<(String, Object)>) -> Seq<(Seq<char>, ObjectModel)>
    decreases v,
{
    Seq::new(
        v.len() as nat,
        |i: int| if 0 <= i < v.len() { (v[i].0@, v[i].1.view()) } else { (Seq::empty(), ObjectModel::Null) },
    )
}

impl Object {
    pub open spec fn view(self) -> ObjectModel
        decreases self,
    {
        match self {
            Object::Null => ObjectModel::Null,
            Object::Bool(b) => ObjectModel::Bool(b),
            Object::Int(i) => ObjectModel::Int(i),
            Object::Float(f) => ObjectModel::Float(f),
            Object::Str(s) => ObjectModel::Str(s@),
            Object::List(items) => ObjectModel::List(objects_view(items)),
            Object::Tuple(None, items) => ObjectModel::Tuple(None, objects_view(items)),
            Object::Tuple(Some(c), items) => ObjectModel::Tuple(Some(c.view()), objects_view(items)),
            Object::Dict(entries) => ObjectModel::Dict(pairs_view(entries)),
            Object::Instance(n, None) => ObjectModel::Instance(n@, None),
            Object::Instance(n, Some(fields)) => ObjectModel::Instance(n@, Some(attrs_view(fields))),
        }
    }
}

impl ObjectModel {
    /// Whether the object can serve as a key of a mapping: scalars and
    /// tuples of such keys can, lists and mappings cannot, nor can a data
    /// class instance (its equality makes it unhashable).
    pub open spec fn hashable(self) -> bool
        decreases self,
    {
        match self {
            ObjectModel::List(_) => false,
            ObjectModel::Dict(_) => false,
            ObjectModel::Tuple(_, items) => forall|i: int|
                0 <= i < items.len() ==> (#[trigger] items[i]).hashable(),
            ObjectModel::Instance(_, declared) => declared is None,
            _ => true,
        }
    }
}

/// Whether `o` can serve as a key of a mapping.
pub fn is_hashable(o: &Object) -> (r: bool)
    ensures
        r == o@.hashable(),
    decreases o,
{
    match o {
        Object::List(items) => {
            false
        },
        Object::Dict(_) => false,
        Object::Tuple(c, items) => {
            assert(o@->Tuple_1 == objects_view(*items));
            let mut i: usize = 0;
            while i < items.len()
                invariant
                    0 <= i <= items.len(),
                    *o == Object::Tuple(*c, *items),
                    o@ is Tuple,
                    o@->Tuple_1 == objects_view(*items),
                    forall|j: int| 0 <= j < i ==> (#[trigger] objects_view(*items)[j]).hashable(),
                decreases items.len() - i,
            {
                proof {
                    broadcast use vstd::std_specs::vec::axiom_vec_index_decreases;
                    assert(decreases_to!(*items => items[i as int]));
                    assert(decreases_to!(*o => items[i as int]));
                }
                if !is_hashable(&items[i]) {
                    assert(!objects_view(*items)[i as int].hashable());
                    return false;
                }
                i = i + 1;
            }
            true
        },
        Object::Instance(_, declared) => declared.is_none(),
        _ => true,
    }
}

} // verus!
