//! From host objects to the value tree.
use vstd::prelude::*;
use crate::error::{Error, ErrorModel};
use crate::object::{attrs_view, names_view, objects_view, pairs_view, ClassModel, Object, ObjectModel, TupleClass};
use crate::MAX_DEPTH;
use crate::value::{entries_view, fields_view, values_view, Number, Value, ValueModel};

verus! {

/// A tuple class is taken for a named record when it has exactly one base,
/// that base is the built-in tuple type, and it declares its field names.
pub open spec fn named_record_class(c: Option<ClassModel>) -> bool {
    match c {
        Some(c) => c.n_bases == 1 && c.base_is_tuple && c.fields is Some,
        None => false,
    }
}

/// How many of a named record's items have a field name: the shorter of
/// the two, as pairing names with items stops at the end of either.
pub open spec fn paired_len(c: ClassModel, items: Seq<ObjectModel>) -> int {
    let n = c.fields->Some_0.len();
    if n < items.len() { n as int } else { items.len() as int }
}

pub open spec fn named_fields(names: Seq<Seq<char>>, xs: Seq<ValueModel>) -> Seq<(Seq<char>, ValueModel)> {
    Seq::new(xs.len(), |i: int| (names[i], xs[i]))
}

/// The encoding of a host object: the first unsupported object met in a
/// left-to-right walk, or the value built.
pub open spec fn encode(o: ObjectModel, depth: nat) -> Result<ValueModel, ErrorModel>
    decreases o, 0int,
{
    if depth == 0 {
        Err(ErrorModel::DepthExceeded)
    } else {
        let inner = (depth - 1) as nat;
        match o {
            ObjectModel::Dict(es) => match encode_entries(es, es.len() as int, inner) {
                Ok(xs) => Ok(ValueModel::Mapping(xs)),
                Err(e) => Err(e),
            },
            ObjectModel::Tuple(c, items) => if named_record_class(c) {
                match encode_items(items, paired_len(c->Some_0, items), inner) {
                    Ok(xs) => Ok(
                        ValueModel::Struct(
                            Some(c->Some_0.name),
                            named_fields(c->Some_0.fields->Some_0, xs),
                        ),
                    ),
                    Err(e) => Err(e),
                }
            } else {
                match encode_items(items, items.len() as int, inner) {
                    Ok(xs) => Ok(ValueModel::Tuple(None, xs)),
                    Err(e) => Err(e),
                }
            },
            ObjectModel::List(items) => match encode_items(items, items.len() as int, inner) {
                Ok(xs) => Ok(ValueModel::Sequence(xs)),
                Err(e) => Err(e),
            },
            ObjectModel::Str(s) => Ok(ValueModel::Str(s)),
            ObjectModel::Bool(b) => Ok(ValueModel::Bool(b)),
            ObjectModel::Int(i) => Ok(ValueModel::Number(Number::Integer(i))),
            ObjectModel::Float(f) => Ok(ValueModel::Number(Number::Float(f))),
            ObjectModel::Null => Ok(ValueModel::Opt(None)),
            ObjectModel::Instance(n, Some(fs)) => match encode_attrs(fs, fs.len() as int, inner) {
                Ok(xs) => Ok(ValueModel::Struct(Some(n), xs)),
                Err(e) => Err(e),
            },
            ObjectModel::Instance(n, None) => Err(ErrorModel::UnsupportedType(n)),
        }
    }
}

/// The encoding of the first `n` items.
pub open spec fn encode_items(s: Seq<ObjectModel>, n: int, depth: nat) -> Result<Seq<ValueModel>, ErrorModel>
    decreases s, n,
{
    if n <= 0 || n > s.len() {
        Ok(Seq::empty())
    } else {
        match encode_items(s, n - 1, depth) {
            Err(e) => Err(e),
            Ok(xs) => match encode(s[n - 1], depth) {
                Err(e) => Err(e),
                Ok(x) => Ok(xs.push(x)),
            },
        }
    }
}

/// The encoding of the first `n` attributes, each under its name.
pub open spec fn encode_attrs(fs: Seq<(Seq<char>, ObjectModel)>, n: int, depth: nat) -> Result<
    Seq<(Seq<char>, ValueModel)>,
    ErrorModel,
>
    decreases fs, n,
{
    if n <= 0 || n > fs.len() {
        Ok(Seq::empty())
    } else {
        match encode_attrs(fs, n - 1, depth) {
            Err(e) => Err(e),
            Ok(xs) => match encode(fs[n - 1].1, depth) {
                Err(e) => Err(e),
                Ok(x) => Ok(xs.push((fs[n - 1].0, x))),
            },
        }
    }
}

/// The encoding of the first `n` entries, key before value.
pub open spec fn encode_entries(es: Seq<(ObjectModel, ObjectModel)>, n: int, depth: nat) -> Result<
    Seq<(ValueModel, ValueModel)>,
    ErrorModel,
>
    decreases es, n,
{
    if n <= 0 || n > es.len() {
        Ok(Seq::empty())
    } else {
        match encode_entries(es, n - 1, depth) {
            Err(e) => Err(e),
            Ok(xs) => match encode(es[n - 1].0, depth) {
                Err(e) => Err(e),
                Ok(k) => match encode(es[n - 1].1, depth) {
                    Err(e) => Err(e),
                    Ok(x) => Ok(xs.push((k, x))),
                },
            },
        }
    }
}

pub open spec fn encoded_view(r: Result<Value, Error>) -> Result<ValueModel, ErrorModel> {
    match r {
        Ok(v) => Ok(v@),
        Err(e) => Err(e@),
    }
}

proof fn lemma_items_err(s: Seq<ObjectModel>, k: int, n: int, depth: nat)
    requires
        0 <= k <= n <= s.len(),
        encode_items(s, k, depth) is Err,
    ensures
        encode_items(s, n, depth) == encode_items(s, k, depth),
    decreases n - k,
{
    if n > k {
        lemma_items_err(s, k, n - 1, depth);
    }
}

pub(crate) proof fn lemma_items_len(s: Seq<ObjectModel>, n: int, depth: nat)
    requires
        0 <= n <= s.len(),
        encode_items(s, n, depth) is Ok,
    ensures
        encode_items(s, n, depth)->Ok_0.len() == n,
    decreases n,
{
    if n > 0 {
        lemma_items_len(s, n - 1, depth);
    }
}

proof fn lemma_attrs_err(fs: Seq<(Seq<char>, ObjectModel)>, k: int, n: int, depth: nat)
    requires
        0 <= k <= n <= fs.len(),
        encode_attrs(fs, k, depth) is Err,
    ensures
        encode_attrs(fs, n, depth) == encode_attrs(fs, k, depth),
    decreases n - k,
{
    if n > k {
        lemma_attrs_err(fs, k, n - 1, depth);
    }
}

proof fn lemma_entries_err(es: Seq<(ObjectModel, ObjectModel)>, k: int, n: int, depth: nat)
    requires
        0 <= k <= n <= es.len(),
        encode_entries(es, k, depth) is Err,
    ensures
        encode_entries(es, n, depth) == encode_entries(es, k, depth),
    decreases n - k,
{
    if n > k {
        lemma_entries_err(es, k, n - 1, depth);
    }
}

/// Encodes the first `n` items, in order.
fn encode_list(items: &Vec<Object>, n: usize, depth: usize) -> (r: Result<Vec<Value>, Error>)
    requires
        n <= items.len(),
    ensures
        match r {
            Ok(out) => encode_items(objects_view(*items), n as int, depth as nat) == Ok::<
                Seq<ValueModel>,
                ErrorModel,
            >(values_view(out)),
            Err(e) => encode_items(objects_view(*items), n as int, depth as nat) == Err::<
                Seq<ValueModel>,
                ErrorModel,
            >(e@),
        },
    decreases items,
{
    let ghost s = objects_view(*items);
    let mut out: Vec<Value> = Vec::new();
    assert(values_view(out) =~= Seq::<ValueModel>::empty());
    let mut i: usize = 0;
    while i < n
        invariant
            0 <= i <= n <= items.len(),
            s == objects_view(*items),
            encode_items(s, i as int, depth as nat) == Ok::<Seq<ValueModel>, ErrorModel>(values_view(out)),
        decreases n - i,
    {
        proof {
            broadcast use vstd::std_specs::vec::axiom_vec_index_decreases;

            assert(decreases_to!(*items => items[i as int]));
        }
        assert(s[i as int] == items[i as int]@);
        match extract_at(&items[i], depth) {
            Err(e) => {
                proof {
                    lemma_items_err(s, i + 1, n as int, depth as nat);
                }
                return Err(e);
            },
            Ok(v) => {
                let ghost before = values_view(out);
                out.push(v);
                assert(values_view(out) =~= before.push(v@));
            },
        }
        i = i + 1;
    }
    Ok(out)
}

/// Whether a tuple of this class is a named record.
pub fn is_namedtuple(class: &Option<TupleClass>) -> (r: bool)
    ensures
        r == named_record_class(
            match class {
                Some(c) => Some(c@),
                None => None,
            },
        ),
{
    match class {
        Some(c) => c.n_bases == 1 && c.base_is_tuple && c.fields.is_some(),
        None => false,
    }
}

/// Encodes a named record: a struct named after its class, whose fields are
/// its declared names paired with its items, in order.
pub fn extract_namedtuple(
    name: &String,
    names: &Vec<String>,
    items: &Vec<Object>,
    depth: usize,
) -> (r: Result<
    Value,
    Error,
>)
    ensures
        ({
            let k = if names.len() < items.len() { names.len() as int } else { items.len() as int };
            encoded_view(r) == match encode_items(objects_view(*items), k, depth as nat) {
                Ok(xs) => Ok::<ValueModel, ErrorModel>(
                    ValueModel::Struct(Some(name@), named_fields(names_view(*names), xs)),
                ),
                Err(e) => Err(e),
            }
        }),
    decreases items,
{
    let k: usize = if names.len() < items.len() { names.len() } else { items.len() };
    let ghost s = objects_view(*items);
    let mut out: Vec<(String, Value)> = Vec::new();
    assert(fields_view(out) =~= named_fields(names_view(*names), Seq::empty()));
    let mut i: usize = 0;
    while i < k
        invariant
            0 <= i <= k,
            k == if names.len() < items.len() { names.len() } else { items.len() },
            s == objects_view(*items),
            encode_items(s, i as int, depth as nat) is Ok,
            fields_view(out) =~= named_fields(names_view(*names), encode_items(s, i as int, depth as nat)->Ok_0),
        decreases k - i,
    {
        proof {
            broadcast use vstd::std_specs::vec::axiom_vec_index_decreases;

            assert(decreases_to!(*items => items[i as int]));
        }
        assert(s[i as int] == items[i as int]@);
        match extract_at(&items[i], depth) {
            Err(e) => {
                assert(encode_items(s, i + 1, depth as nat) == Err::<Seq<ValueModel>, ErrorModel>(e@));
                proof {
                    lemma_items_err(s, i + 1, k as int, depth as nat);
                }
                return Err(e);
            },
            Ok(v) => {
                let ghost before = fields_view(out);
                let ghost prev = encode_items(s, i as int, depth as nat)->Ok_0;
                let ghost v_view = v@;
                proof {
                    lemma_items_len(s, i as int, depth as nat);
                }
                out.push((names[i].clone(), v));
                assert(encode_items(s, i + 1, depth as nat) == Ok::<Seq<ValueModel>, ErrorModel>(
                    prev.push(v_view),
                ));
                assert(named_fields(names_view(*names), prev.push(v_view)) =~= named_fields(
                    names_view(*names),
                    prev,
                ).push((names[i as int]@, v_view)));
                assert(fields_view(out) =~= before.push((names[i as int]@, v_view)));
            },
        }
        i = i + 1;
    }
    Ok(Value::Struct(Some(name.clone()), out))
}

/// Encodes a record with declared fields: a struct named after its type,
/// with each declared field under its name, in declaration order.
pub fn extract_dataclass(name: &String, fields: &Vec<(String, Object)>, depth: usize) -> (r: Result<Value, Error>)
    ensures
        encoded_view(r) == match encode_attrs(attrs_view(*fields), fields.len() as int, depth as nat) {
            Ok(xs) => Ok::<ValueModel, ErrorModel>(ValueModel::Struct(Some(name@), xs)),
            Err(e) => Err(e),
        },
    decreases fields,
{
    let ghost s = attrs_view(*fields);
    let mut out: Vec<(String, Value)> = Vec::new();
    assert(fields_view(out) =~= Seq::<(Seq<char>, ValueModel)>::empty());
    let mut i: usize = 0;
    while i < fields.len()
        invariant
            0 <= i <= fields.len(),
            s == attrs_view(*fields),
            encode_attrs(s, i as int, depth as nat) == Ok::<Seq<(Seq<char>, ValueModel)>, ErrorModel>(
                fields_view(out),
            ),
        decreases fields.len() - i,
    {
        proof {
            broadcast use vstd::std_specs::vec::axiom_vec_index_decreases;

            assert(decreases_to!(*fields => fields[i as int]));
            assert(decreases_to!(*fields => fields[i as int].1));
        }
        assert(s[i as int].1 == fields[i as int].1@);
        match extract_at(&fields[i].1, depth) {
            Err(e) => {
                proof {
                    lemma_attrs_err(s, i + 1, fields.len() as int, depth as nat);
                }
                return Err(e);
            },
            Ok(v) => {
                let ghost before = fields_view(out);
                let ghost v_view = v@;
                out.push((fields[i].0.clone(), v));
                assert(fields_view(out) =~= before.push((s[i as int].0, v_view)));
            },
        }
        i = i + 1;
    }
    Ok(Value::Struct(Some(name.clone()), out))
}

/// Encodes each entry of a mapping, key before value.
fn encode_map(entries: &Vec<(Object, Object)>, depth: usize) -> (r: Result<Vec<(Value, Value)>, Error>)
    ensures
        match r {
            Ok(out) => encode_entries(pairs_view(*entries), entries.len() as int, depth as nat) == Ok::<
                Seq<(ValueModel, ValueModel)>,
                ErrorModel,
            >(entries_view(out)),
            Err(e) => encode_entries(pairs_view(*entries), entries.len() as int, depth as nat) == Err::<
                Seq<(ValueModel, ValueModel)>,
                ErrorModel,
            >(e@),
        },
    decreases entries,
{
    let ghost s = pairs_view(*entries);
    let mut out: Vec<(Value, Value)> = Vec::new();
    assert(entries_view(out) =~= Seq::<(ValueModel, ValueModel)>::empty());
    let mut i: usize = 0;
    while i < entries.len()
        invariant
            0 <= i <= entries.len(),
            s == pairs_view(*entries),
            encode_entries(s, i as int, depth as nat) == Ok::<Seq<(ValueModel, ValueModel)>, ErrorModel>(
                entries_view(out),
            ),
        decreases entries.len() - i,
    {
        proof {
            broadcast use vstd::std_specs::vec::axiom_vec_index_decreases;

            assert(decreases_to!(*entries => entries[i as int]));
            assert(decreases_to!(*entries => entries[i as int].0));
            assert(decreases_to!(*entries => entries[i as int].1));
        }
        assert(s[i as int].0 == entries[i as int].0@);
        assert(s[i as int].1 == entries[i as int].1@);
        let k = match extract_at(&entries[i].0, depth) {
            Err(e) => {
                proof {
                    lemma_entries_err(s, i + 1, entries.len() as int, depth as nat);
                }
                return Err(e);
            },
            Ok(k) => k,
        };
        let x = match extract_at(&entries[i].1, depth) {
            Err(e) => {
                proof {
                    lemma_entries_err(s, i + 1, entries.len() as int, depth as nat);
                }
                return Err(e);
            },
            Ok(x) => x,
        };
        let ghost before = entries_view(out);
        let ghost kv = (k@, x@);
        out.push((k, x));
        assert(entries_view(out) =~= before.push(kv));
        i = i + 1;
    }
    Ok(out)
}

/// Encodes a host object as a value, entering at most `MAX_DEPTH` levels
/// of nesting.
pub fn extract(value: &Object) -> (r: Result<Value, Error>)
    ensures
        encoded_view(r) == encode(value@, MAX_DEPTH as nat),
{
    extract_at(value, MAX_DEPTH)
}

/// Encodes a host object as a value.  Kinds are tried in a fixed order:
/// mapping, tuple (a named record if its class says so), list, string,
/// boolean, integer, float, `None`, record with declared fields.  Anything
/// else fails with its type's name.  `depth` is how many levels of nesting
/// may be entered: a graph nested deeper (a cyclic one, for instance) fails
/// rather than exhausting the stack.
pub fn extract_at(value: &Object, depth: usize) -> (r: Result<Value, Error>)
    ensures
        encoded_view(r) == encode(value@, depth as nat),
    decreases value,
{
    if depth == 0 {
        return Err(Error::DepthExceeded);
    }
    let inner = depth - 1;
    match value {
        Object::Dict(entries) => match encode_map(entries, inner) {
            Ok(es) => Ok(Value::Mapping(es)),
            Err(e) => Err(e),
        },
        Object::Tuple(class, items) => {
            if is_namedtuple(class) {
                match class {
                    Some(c) => match &c.fields {
                        Some(names) => extract_namedtuple(&c.name, names, items, inner),
                        None => Ok(Value::Unit),
                    },
                    None => Ok(Value::Unit),
                }
            } else {
                match encode_list(items, items.len(), inner) {
                    Ok(xs) => Ok(Value::Tuple(None, xs)),
                    Err(e) => Err(e),
                }
            }
        },
        Object::List(items) => match encode_list(items, items.len(), inner) {
            Ok(xs) => Ok(Value::Sequence(xs)),
            Err(e) => Err(e),
        },
        Object::Str(s) => Ok(Value::String(s.clone())),
        Object::Bool(b) => Ok(Value::Bool(*b)),
        Object::Int(i) => Ok(Value::Number(Number::Integer(*i))),
        Object::Float(f) => Ok(Value::Number(Number::Float(*f))),
        Object::Null => Ok(Value::Option(None)),
        Object::Instance(name, Some(fields)) => extract_dataclass(name, fields, inner),
        Object::Instance(name, None) => Err(Error::UnsupportedType(name.clone())),
    }
}

} // verus!
