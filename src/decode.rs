//! From the value tree back to host objects.
use vstd::prelude::*;
use vstd::string::StringExecFns;
use crate::error::{Error, ErrorModel};
use crate::object::{
    is_hashable, names_view, objects_view, pairs_view, ClassModel, Object, ObjectModel,
    TupleClass,
};
use crate::value::{entries_view, fields_view, values_view, Number, Value, ValueModel};

verus! {

pub open spec fn digit(d: nat) -> char {
    if d == 0 { '0' }
    else if d == 1 { '1' }
    else if d == 2 { '2' }
    else if d == 3 { '3' }
    else if d == 4 { '4' }
    else if d == 5 { '5' }
    else if d == 6 { '6' }
    else if d == 7 { '7' }
    else if d == 8 { '8' }
    else { '9' }
}

/// The decimal digits of `n`, most significant first.
pub open spec fn decimal(n: nat) -> Seq<char>
    decreases n,
{
    if n < 10 {
        seq![digit(n)]
    } else {
        decimal(n / 10).push(digit(n % 10))
    }
}

/// The key that stands for position `i` of a named tuple: `_0`, `_1`, ...
pub open spec fn positional_key(i: nat) -> Seq<char> {
    seq!['_'] + decimal(i)
}

pub open spec fn positional_keys(n: nat) -> Seq<Seq<char>> {
    Seq::new(n, |i: int| positional_key(i as nat))
}

/// The sentinel key that carries a record's name in a flattened mapping.
pub open spec fn name_key() -> Seq<char> {
    seq!['!', '_', '_', 'n', 'a', 'm', 'e', '_', '_']
}

/// The class synthesised for a record named `name` with the given fields.
pub open spec fn record_class(name: Seq<char>, fields: Seq<Seq<char>>) -> ClassModel {
    ClassModel { name, n_bases: 1, base_is_tuple: true, fields: Some(fields) }
}

/// A mapping from each key (as a string) to the object at its position.
pub open spec fn keyed_entries(keys: Seq<Seq<char>>, xs: Seq<ObjectModel>) -> Seq<
    (ObjectModel, ObjectModel),
> {
    Seq::new(xs.len(), |i: int| (ObjectModel::Str(keys[i]), xs[i]))
}

pub open spec fn sentinel_entry(name: Seq<char>) -> (ObjectModel, ObjectModel) {
    (ObjectModel::Str(name_key()), ObjectModel::Str(name))
}

/// What a named record (keys `keys`, decoded field values `xs`) becomes
/// under the two preservation flags.
pub open spec fn rebuild_record(
    name: Option<Seq<char>>,
    keys: Seq<Seq<char>>,
    xs: Seq<ObjectModel>,
    preserve_structs: bool,
    preserve_class_names: bool,
) -> ObjectModel {
    match name {
        Some(n) => if preserve_structs {
            ObjectModel::Tuple(Some(record_class(n, keys)), xs)
        } else if preserve_class_names {
            ObjectModel::Dict(keyed_entries(keys, xs).push(sentinel_entry(n)))
        } else {
            ObjectModel::Dict(keyed_entries(keys, xs))
        },
        None => ObjectModel::Dict(keyed_entries(keys, xs)),
    }
}

/// What a tuple with decoded items `xs` becomes under the two flags: only
/// a named one is affected.
pub open spec fn rebuild_tuple(
    name: Option<Seq<char>>,
    xs: Seq<ObjectModel>,
    preserve_structs: bool,
    preserve_class_names: bool,
) -> ObjectModel {
    match name {
        Some(n) => if preserve_structs {
            ObjectModel::Tuple(Some(record_class(n, positional_keys(xs.len()))), xs)
        } else if preserve_class_names {
            ObjectModel::Dict(keyed_entries(positional_keys(xs.len()), xs).push(sentinel_entry(n)))
        } else {
            ObjectModel::Tuple(None, xs)
        },
        None => ObjectModel::Tuple(None, xs),
    }
}

pub open spec fn field_names(fs: Seq<(Seq<char>, ValueModel)>) -> Seq<Seq<char>> {
    Seq::new(fs.len(), |i: int| fs[i].0)
}

/// The decoding of a value with `depth` levels of nesting allowed: the two
/// preservation flags may not both be set; otherwise the first failure met
/// in a left-to-right walk, or the object built.
pub open spec fn decode(v: ValueModel, ps: bool, pcn: bool, depth: nat) -> Result<ObjectModel, ErrorModel>
    decreases v, 0int,
{
    if ps && pcn {
        Err(ErrorModel::ConflictingPolicy)
    } else if depth == 0 {
        Err(ErrorModel::DepthExceeded)
    } else {
        let inner = (depth - 1) as nat;
        match v {
            ValueModel::Str(s) => Ok(ObjectModel::Str(s)),
            ValueModel::Char(c) => Ok(ObjectModel::Str(seq![c])),
            ValueModel::Bool(b) => Ok(ObjectModel::Bool(b)),
            ValueModel::Number(Number::Integer(i)) => Ok(ObjectModel::Int(i)),
            ValueModel::Number(Number::Float(f)) => Ok(ObjectModel::Float(f)),
            ValueModel::Unit => Ok(ObjectModel::Null),
            ValueModel::Opt(None) => Ok(ObjectModel::Null),
            ValueModel::Opt(Some(b)) => decode(*b, ps, pcn, inner),
            ValueModel::Sequence(items) => match decode_items(items, items.len() as int, ps, pcn, inner) {
                Ok(xs) => Ok(ObjectModel::List(xs)),
                Err(e) => Err(e),
            },
            ValueModel::Tuple(name, items) => match decode_items(items, items.len() as int, ps, pcn, inner) {
                Ok(xs) => Ok(rebuild_tuple(name, xs, ps, pcn)),
                Err(e) => Err(e),
            },
            ValueModel::Struct(name, fs) => match decode_fields(fs, fs.len() as int, ps, pcn, inner) {
                Ok(xs) => Ok(rebuild_record(name, field_names(fs), xs, ps, pcn)),
                Err(e) => Err(e),
            },
            ValueModel::Mapping(es) => match decode_entries(es, es.len() as int, ps, pcn, inner) {
                Ok(xs) => Ok(ObjectModel::Dict(xs)),
                Err(e) => Err(e),
            },
            ValueModel::Include(p) => Err(ErrorModel::UnresolvedInclude(p)),
        }
    }
}

/// The decoding of the first `n` items.
pub open spec fn decode_items(s: Seq<ValueModel>, n: int, ps: bool, pcn: bool, depth: nat) -> Result<
    Seq<ObjectModel>,
    ErrorModel,
>
    decreases s, n,
{
    if n <= 0 || n > s.len() {
        Ok(Seq::empty())
    } else {
        match decode_items(s, n - 1, ps, pcn, depth) {
            Err(e) => Err(e),
            Ok(xs) => match decode(s[n - 1], ps, pcn, depth) {
                Err(e) => Err(e),
                Ok(x) => Ok(xs.push(x)),
            },
        }
    }
}

/// The decoding of the values of the first `n` fields.
pub open spec fn decode_fields(fs: Seq<(Seq<char>, ValueModel)>, n: int, ps: bool, pcn: bool, depth: nat) -> Result<
    Seq<ObjectModel>,
    ErrorModel,
>
    decreases fs, n,
{
    if n <= 0 || n > fs.len() {
        Ok(Seq::empty())
    } else {
        match decode_fields(fs, n - 1, ps, pcn, depth) {
            Err(e) => Err(e),
            Ok(xs) => match decode(fs[n - 1].1, ps, pcn, depth) {
                Err(e) => Err(e),
                Ok(x) => Ok(xs.push(x)),
            },
        }
    }
}

/// The decoding of the first `n` entries: key, then value, then the check
/// that the key can be a key.
pub open spec fn decode_entries(es: Seq<(ValueModel, ValueModel)>, n: int, ps: bool, pcn: bool, depth: nat) -> Result<
    Seq<(ObjectModel, ObjectModel)>,
    ErrorModel,
>
    decreases es, n,
{
    if n <= 0 || n > es.len() {
        Ok(Seq::empty())
    } else {
        match decode_entries(es, n - 1, ps, pcn, depth) {
            Err(e) => Err(e),
            Ok(xs) => match decode(es[n - 1].0, ps, pcn, depth) {
                Err(e) => Err(e),
                Ok(k) => match decode(es[n - 1].1, ps, pcn, depth) {
                    Err(e) => Err(e),
                    Ok(x) => if k.hashable() {
                        Ok(xs.push((k, x)))
                    } else {
                        Err(ErrorModel::UnhashableKey)
                    },
                },
            },
        }
    }
}

pub open spec fn result_view(r: Result<Object, Error>) -> Result<ObjectModel, ErrorModel> {
    match r {
        Ok(o) => Ok(o@),
        Err(e) => Err(e@),
    }
}

proof fn lemma_items_err(s: Seq<ValueModel>, k: int, n: int, ps: bool, pcn: bool, depth: nat)
    requires
        0 <= k <= n <= s.len(),
        decode_items(s, k, ps, pcn, depth) is Err,
    ensures
        decode_items(s, n, ps, pcn, depth) == decode_items(s, k, ps, pcn, depth),
    decreases n - k,
{
    if n > k {
        lemma_items_err(s, k, n - 1, ps, pcn, depth);
    }
}

proof fn lemma_fields_err(fs: Seq<(Seq<char>, ValueModel)>, k: int, n: int, ps: bool, pcn: bool, depth: nat)
    requires
        0 <= k <= n <= fs.len(),
        decode_fields(fs, k, ps, pcn, depth) is Err,
    ensures
        decode_fields(fs, n, ps, pcn, depth) == decode_fields(fs, k, ps, pcn, depth),
    decreases n - k,
{
    if n > k {
        lemma_fields_err(fs, k, n - 1, ps, pcn, depth);
    }
}

proof fn lemma_entries_err(es: Seq<(ValueModel, ValueModel)>, k: int, n: int, ps: bool, pcn: bool, depth: nat)
    requires
        0 <= k <= n <= es.len(),
        decode_entries(es, k, ps, pcn, depth) is Err,
    ensures
        decode_entries(es, n, ps, pcn, depth) == decode_entries(es, k, ps, pcn, depth),
    decreases n - k,
{
    if n > k {
        lemma_entries_err(es, k, n - 1, ps, pcn, depth);
    }
}

pub(crate) proof fn lemma_items_len(s: Seq<ValueModel>, n: int, ps: bool, pcn: bool, depth: nat)
    requires
        0 <= n <= s.len(),
        decode_items(s, n, ps, pcn, depth) is Ok,
    ensures
        decode_items(s, n, ps, pcn, depth)->Ok_0.len() == n,
    decreases n,
{
    if n > 0 {
        lemma_items_len(s, n - 1, ps, pcn, depth);
    }
}

proof fn lemma_fields_len(fs: Seq<(Seq<char>, ValueModel)>, n: int, ps: bool, pcn: bool, depth: nat)
    requires
        0 <= n <= fs.len(),
        decode_fields(fs, n, ps, pcn, depth) is Ok,
    ensures
        decode_fields(fs, n, ps, pcn, depth)->Ok_0.len() == n,
    decreases n,
{
    if n > 0 {
        lemma_fields_len(fs, n - 1, ps, pcn, depth);
    }
}

/// Relies on `char`'s `ToString`: the string of that one character.
#[verifier::external_body]
fn char_string(c: char) -> (r: String)
    ensures
        r@ == seq![c],
{
    c.to_string()
}

/// The digit `d` as a one-character string.
fn digit_str(d: usize) -> (r: &'static str)
    requires
        d < 10,
    ensures
        r@ == seq![digit(d as nat)],
{
    proof {
        reveal_strlit("0");
        reveal_strlit("1");
        reveal_strlit("2");
        reveal_strlit("3");
        reveal_strlit("4");
        reveal_strlit("5");
        reveal_strlit("6");
        reveal_strlit("7");
        reveal_strlit("8");
        reveal_strlit("9");
    }
    let r = if d == 0 { "0" }
    else if d == 1 { "1" }
    else if d == 2 { "2" }
    else if d == 3 { "3" }
    else if d == 4 { "4" }
    else if d == 5 { "5" }
    else if d == 6 { "6" }
    else if d == 7 { "7" }
    else if d == 8 { "8" }
    else { "9" };
    assert(r@ =~= seq![digit(d as nat)]);
    r
}

/// Appends the decimal digits of `n` to `s`.
fn push_decimal(s: &mut String, n: usize)
    ensures
        final(s)@ == old(s)@ + decimal(n as nat),
    decreases n,
{
    if n >= 10 {
        push_decimal(s, n / 10);
    }
    let ghost mid = s@;
    s.append(digit_str(n % 10));
    proof {
        if n >= 10 {
            assert(old(s)@ + decimal(n as nat) =~= old(s)@ + decimal((n / 10) as nat) + seq![
                digit((n % 10) as nat),
            ]);
        } else {
            assert(old(s)@ + decimal(n as nat) =~= old(s)@ + seq![digit(n as nat)]);
        }
    }
}

/// The positional key `_i`.
fn positional_name(i: usize) -> (r: String)
    ensures
        r@ == positional_key(i as nat),
{
    let mut r = "_".to_owned();
    proof {
        reveal_strlit("_");
    }
    push_decimal(&mut r, i);
    assert(r@ =~= positional_key(i as nat));
    r
}

fn sentinel_name() -> (r: String)
    ensures
        r@ == name_key(),
{
    let r = "!__name__".to_owned();
    proof {
        reveal_strlit("!__name__");
        assert(r@ =~= name_key());
    }
    r
}

/// The keys `_0` .. `_{n-1}`.
fn positional_names(n: usize) -> (r: Vec<String>)
    ensures
        names_view(r) == positional_keys(n as nat),
{
    let mut r: Vec<String> = Vec::new();
    let mut i: usize = 0;
    while i < n
        invariant
            0 <= i <= n,
            names_view(r) =~= positional_keys(i as nat),
        decreases n - i,
    {
        let k = positional_name(i);
        let ghost before = names_view(r);
        r.push(k);
        assert(names_view(r) =~= before.push(positional_key(i as nat)));
        i = i + 1;
    }
    r
}

/// The names of the fields, in order.
fn clone_names(fields: &Vec<(String, Value)>) -> (r: Vec<String>)
    ensures
        names_view(r) == field_names(fields_view(*fields)),
{
    let mut r: Vec<String> = Vec::new();
    let mut i: usize = 0;
    while i < fields.len()
        invariant
            0 <= i <= fields.len(),
            names_view(r) =~= field_names(fields_view(*fields)).take(i as int),
        decreases fields.len() - i,
    {
        let k = fields[i].0.clone();
        let ghost before = names_view(r);
        r.push(k);
        assert(names_view(r) =~= before.push(fields[i as int].0@));
        assert(field_names(fields_view(*fields)).take(i + 1) =~= field_names(
            fields_view(*fields),
        ).take(i as int).push(fields[i as int].0@));
        i = i + 1;
    }
    assert(field_names(fields_view(*fields)).take(fields.len() as int) =~= field_names(
        fields_view(*fields),
    ));
    r
}

/// Decodes each item, in order.
fn decode_list(items: &Vec<Value>, ps: bool, pcn: bool, depth: usize) -> (r: Result<Vec<Object>, Error>)
    ensures
        match r {
            Ok(out) => decode_items(values_view(*items), items.len() as int, ps, pcn, depth as nat) == Ok::<
                Seq<ObjectModel>,
                ErrorModel,
            >(objects_view(out)),
            Err(e) => decode_items(values_view(*items), items.len() as int, ps, pcn, depth as nat) == Err::<
                Seq<ObjectModel>,
                ErrorModel,
            >(e@),
        },
    decreases items,
{
    let ghost s = values_view(*items);
    let mut out: Vec<Object> = Vec::new();
    assert(objects_view(out) =~= Seq::<ObjectModel>::empty());
    let mut i: usize = 0;
    while i < items.len()
        invariant
            0 <= i <= items.len(),
            s == values_view(*items),
            decode_items(s, i as int, ps, pcn, depth as nat) == Ok::<Seq<ObjectModel>, ErrorModel>(
                objects_view(out),
            ),
        decreases items.len() - i,
    {
        proof {
            broadcast use vstd::std_specs::vec::axiom_vec_index_decreases;

            assert(decreases_to!(*items => items[i as int]));
        }
        assert(s[i as int] == items[i as int]@);
        match try_val_to_py(&items[i], ps, pcn, depth) {
            Err(e) => {
                proof {
                    lemma_items_err(s, i + 1, items.len() as int, ps, pcn, depth as nat);
                }
                return Err(e);
            },
            Ok(o) => {
                let ghost before = objects_view(out);
                out.push(o);
                assert(objects_view(out) =~= before.push(o@));
            },
        }
        i = i + 1;
    }
    Ok(out)
}

/// Decodes each item and pairs it with its positional key.
fn decode_positional(items: &Vec<Value>, ps: bool, pcn: bool, depth: usize) -> (r: Result<
    Vec<(Object, Object)>,
    Error,
>)
    ensures
        match r {
            Ok(out) => {
                &&& decode_items(values_view(*items), items.len() as int, ps, pcn, depth as nat) is Ok
                &&& pairs_view(out) == keyed_entries(
                    positional_keys(items.len() as nat),
                    decode_items(values_view(*items), items.len() as int, ps, pcn, depth as nat)->Ok_0,
                )
            },
            Err(e) => decode_items(values_view(*items), items.len() as int, ps, pcn, depth as nat) == Err::<
                Seq<ObjectModel>,
                ErrorModel,
            >(e@),
        },
    decreases items,
{
    let ghost s = values_view(*items);
    let ghost keys = positional_keys(items.len() as nat);
    let mut out: Vec<(Object, Object)> = Vec::new();
    assert(pairs_view(out) =~= keyed_entries(keys, Seq::empty()));
    let mut i: usize = 0;
    while i < items.len()
        invariant
            0 <= i <= items.len(),
            s == values_view(*items),
            keys == positional_keys(items.len() as nat),
            decode_items(s, i as int, ps, pcn, depth as nat) is Ok,
            pairs_view(out) =~= keyed_entries(keys, decode_items(s, i as int, ps, pcn, depth as nat)->Ok_0),
        decreases items.len() - i,
    {
        proof {
            broadcast use vstd::std_specs::vec::axiom_vec_index_decreases;

            assert(decreases_to!(*items => items[i as int]));
        }
        assert(s[i as int] == items[i as int]@);
        match try_val_to_py(&items[i], ps, pcn, depth) {
            Err(e) => {
                proof {
                    lemma_items_err(s, i + 1, items.len() as int, ps, pcn, depth as nat);
                }
                return Err(e);
            },
            Ok(o) => {
                let k = positional_name(i);
                let ghost before = pairs_view(out);
                let ghost o_view = o@;
                let ghost prev = decode_items(s, i as int, ps, pcn, depth as nat)->Ok_0;
                proof {
                    lemma_items_len(s, i as int, ps, pcn, depth as nat);
                }
                out.push((Object::Str(k), o));
                assert(decode_items(s, i + 1, ps, pcn, depth as nat) == Ok::<Seq<ObjectModel>, ErrorModel>(
                    prev.push(o_view),
                ));
                assert(keyed_entries(keys, prev.push(o_view)) =~= keyed_entries(keys, prev).push(
                    (ObjectModel::Str(keys[i as int]), o_view),
                ));
                assert(pairs_view(out) =~= before.push((ObjectModel::Str(keys[i as int]), o_view)));
            },
        }
        i = i + 1;
    }
    Ok(out)
}

/// Decodes the value of each field, in order.
fn decode_field_values(fields: &Vec<(String, Value)>, ps: bool, pcn: bool, depth: usize) -> (r: Result<
    Vec<Object>,
    Error,
>)
    ensures
        match r {
            Ok(out) => decode_fields(fields_view(*fields), fields.len() as int, ps, pcn, depth as nat) == Ok::<
                Seq<ObjectModel>,
                ErrorModel,
            >(objects_view(out)),
            Err(e) => decode_fields(fields_view(*fields), fields.len() as int, ps, pcn, depth as nat) == Err::<
                Seq<ObjectModel>,
                ErrorModel,
            >(e@),
        },
    decreases fields,
{
    let ghost s = fields_view(*fields);
    let mut out: Vec<Object> = Vec::new();
    assert(objects_view(out) =~= Seq::<ObjectModel>::empty());
    let mut i: usize = 0;
    while i < fields.len()
        invariant
            0 <= i <= fields.len(),
            s == fields_view(*fields),
            decode_fields(s, i as int, ps, pcn, depth as nat) == Ok::<Seq<ObjectModel>, ErrorModel>(
                objects_view(out),
            ),
        decreases fields.len() - i,
    {
        proof {
            broadcast use vstd::std_specs::vec::axiom_vec_index_decreases;

            assert(decreases_to!(*fields => fields[i as int]));
            assert(decreases_to!(*fields => fields[i as int].1));
        }
        assert(s[i as int].1 == fields[i as int].1@);
        match try_val_to_py(&fields[i].1, ps, pcn, depth) {
            Err(e) => {
                proof {
                    lemma_fields_err(s, i + 1, fields.len() as int, ps, pcn, depth as nat);
                }
                return Err(e);
            },
            Ok(o) => {
                let ghost before = objects_view(out);
                out.push(o);
                assert(objects_view(out) =~= before.push(o@));
            },
        }
        i = i + 1;
    }
    Ok(out)
}

/// Decodes the value of each field and pairs it with the field's name.
fn decode_keyed_fields(fields: &Vec<(String, Value)>, ps: bool, pcn: bool, depth: usize) -> (r: Result<
    Vec<(Object, Object)>,
    Error,
>)
    ensures
        match r {
            Ok(out) => {
                &&& decode_fields(fields_view(*fields), fields.len() as int, ps, pcn, depth as nat) is Ok
                &&& pairs_view(out) == keyed_entries(
                    field_names(fields_view(*fields)),
                    decode_fields(fields_view(*fields), fields.len() as int, ps, pcn, depth as nat)->Ok_0,
                )
            },
            Err(e) => decode_fields(fields_view(*fields), fields.len() as int, ps, pcn, depth as nat) == Err::<
                Seq<ObjectModel>,
                ErrorModel,
            >(e@),
        },
    decreases fields,
{
    let ghost s = fields_view(*fields);
    let mut out: Vec<(Object, Object)> = Vec::new();
    assert(pairs_view(out) =~= keyed_entries(field_names(s), Seq::empty()));
    let mut i: usize = 0;
    while i < fields.len()
        invariant
            0 <= i <= fields.len(),
            s == fields_view(*fields),
            decode_fields(s, i as int, ps, pcn, depth as nat) is Ok,
            pairs_view(out) =~= keyed_entries(field_names(s), decode_fields(s, i as int, ps, pcn, depth as nat)->Ok_0),
        decreases fields.len() - i,
    {
        proof {
            broadcast use vstd::std_specs::vec::axiom_vec_index_decreases;

            assert(decreases_to!(*fields => fields[i as int]));
            assert(decreases_to!(*fields => fields[i as int].1));
        }
        assert(s[i as int].1 == fields[i as int].1@);
        match try_val_to_py(&fields[i].1, ps, pcn, depth) {
            Err(e) => {
                proof {
                    lemma_fields_err(s, i + 1, fields.len() as int, ps, pcn, depth as nat);
                }
                return Err(e);
            },
            Ok(o) => {
                let k = fields[i].0.clone();
                let ghost before = pairs_view(out);
                let ghost o_view = o@;
                let ghost prev = decode_fields(s, i as int, ps, pcn, depth as nat)->Ok_0;
                proof {
                    lemma_fields_len(s, i as int, ps, pcn, depth as nat);
                }
                out.push((Object::Str(k), o));
                assert(decode_fields(s, i + 1, ps, pcn, depth as nat) == Ok::<Seq<ObjectModel>, ErrorModel>(
                    prev.push(o_view),
                ));
                assert(keyed_entries(field_names(s), prev.push(o_view)) =~= keyed_entries(
                    field_names(s),
                    prev,
                ).push((ObjectModel::Str(s[i as int].0), o_view)));
                assert(pairs_view(out) =~= before.push((ObjectModel::Str(s[i as int].0), o_view)));
            },
        }
        i = i + 1;
    }
    Ok(out)
}

/// Decodes each entry: its key, its value, then checks that the key can
/// serve as a key.
fn decode_map(entries: &Vec<(Value, Value)>, ps: bool, pcn: bool, depth: usize) -> (r: Result<
    Vec<(Object, Object)>,
    Error,
>)
    ensures
        match r {
            Ok(out) => decode_entries(entries_view(*entries), entries.len() as int, ps, pcn, depth as nat) == Ok::<
                Seq<(ObjectModel, ObjectModel)>,
                ErrorModel,
            >(pairs_view(out)),
            Err(e) => decode_entries(entries_view(*entries), entries.len() as int, ps, pcn, depth as nat)
                == Err::<Seq<(ObjectModel, ObjectModel)>, ErrorModel>(e@),
        },
    decreases entries,
{
    let ghost s = entries_view(*entries);
    let mut out: Vec<(Object, Object)> = Vec::new();
    assert(pairs_view(out) =~= Seq::<(ObjectModel, ObjectModel)>::empty());
    let mut i: usize = 0;
    while i < entries.len()
        invariant
            0 <= i <= entries.len(),
            s == entries_view(*entries),
            decode_entries(s, i as int, ps, pcn, depth as nat) == Ok::<
                Seq<(ObjectModel, ObjectModel)>,
                ErrorModel,
            >(pairs_view(out)),
        decreases entries.len() - i,
    {
        proof {
            broadcast use vstd::std_specs::vec::axiom_vec_index_decreases;

            assert(decreases_to!(*entries => entries[i as int]));
            assert(decreases_to!(*entries => entries[i as int].0));
            assert(decreases_to!(*entries => entries[i as int].1));
        }
        assert(s[i as int].0 == entries[i as int].0@);
        assert(s[i as int].1 == entries[i as int].1@);
        let k = match try_val_to_py(&entries[i].0, ps, pcn, depth) {
            Err(e) => {
                proof {
                    lemma_entries_err(s, i + 1, entries.len() as int, ps, pcn, depth as nat);
                }
                return Err(e);
            },
            Ok(k) => k,
        };
        let x = match try_val_to_py(&entries[i].1, ps, pcn, depth) {
            Err(e) => {
                proof {
                    lemma_entries_err(s, i + 1, entries.len() as int, ps, pcn, depth as nat);
                }
                return Err(e);
            },
            Ok(x) => x,
        };
        if !is_hashable(&k) {
            proof {
                lemma_entries_err(s, i + 1, entries.len() as int, ps, pcn, depth as nat);
            }
            return Err(Error::UnhashableKey);
        }
        let ghost before = pairs_view(out);
        let ghost kv = (k@, x@);
        out.push((k, x));
        assert(pairs_view(out) =~= before.push(kv));
        i = i + 1;
    }
    Ok(out)
}

/// Rebuilds the host object that `value` describes.  A named record
/// becomes a fresh named-tuple class under `preserve_structs`, a mapping
/// with the sentinel name key under `preserve_class_names`, and a plain
/// mapping (or plain tuple) otherwise.  An include directive fails, and so
/// does a mapping key that decodes to an unhashable object, and so do
/// both flags at once.  `depth` is
/// how many levels of nesting may be entered: a value nested deeper fails
/// rather than exhausting the stack.
pub fn try_val_to_py(
    value: &Value,
    preserve_structs: bool,
    preserve_class_names: bool,
    depth: usize,
) -> (r: Result<Object, Error>)
    ensures
        result_view(r) == decode(value@, preserve_structs, preserve_class_names, depth as nat),
    decreases value,
{
    let ps = preserve_structs;
    let pcn = preserve_class_names;
    if ps && pcn {
        return Err(Error::ConflictingPolicy);
    }
    if depth == 0 {
        return Err(Error::DepthExceeded);
    }
    let inner = depth - 1;
    match value {
        Value::String(s) => Ok(Object::Str(s.clone())),
        Value::Char(c) => Ok(Object::Str(char_string(*c))),
        Value::Bool(b) => Ok(Object::Bool(*b)),
        Value::Number(Number::Integer(i)) => Ok(Object::Int(*i)),
        Value::Number(Number::Float(f)) => Ok(Object::Float(*f)),
        Value::Unit => Ok(Object::Null),
        Value::Option(None) => Ok(Object::Null),
        Value::Option(Some(b)) => try_val_to_py(b, ps, pcn, inner),
        Value::Sequence(items) => match decode_list(items, ps, pcn, inner) {
            Ok(xs) => Ok(Object::List(xs)),
            Err(e) => Err(e),
        },
        Value::Tuple(name, items) => {
            match name {
                Some(n) => {
                    if ps {
                        match decode_list(items, ps, pcn, inner) {
                            Ok(xs) => {
                                proof {
                                    lemma_items_len(values_view(*items), items.len() as int, ps, pcn, inner as nat);
                                }
                                let keys = positional_names(items.len());
                                let class = TupleClass {
                                    name: n.clone(),
                                    n_bases: 1,
                                    base_is_tuple: true,
                                    fields: Some(keys),
                                };
                                let r = Object::Tuple(Some(class), xs);
                                assert(r@ == rebuild_tuple(
                                    Some(n@),
                                    objects_view(xs),
                                    ps,
                                    pcn,
                                ));
                                Ok(r)
                            },
                            Err(e) => Err(e),
                        }
                    } else if pcn {
                        match decode_positional(items, ps, pcn, inner) {
                            Ok(es) => {
                                proof {
                                    lemma_items_len(values_view(*items), items.len() as int, ps, pcn, inner as nat);
                                }
                                let mut es = es;
                                let ghost before = pairs_view(es);
                                es.push((Object::Str(sentinel_name()), Object::Str(n.clone())));
                                assert(pairs_view(es) =~= before.push(sentinel_entry(n@)));
                                Ok(Object::Dict(es))
                            },
                            Err(e) => Err(e),
                        }
                    } else {
                        match decode_list(items, ps, pcn, inner) {
                            Ok(xs) => Ok(Object::Tuple(None, xs)),
                            Err(e) => Err(e),
                        }
                    }
                },
                None => match decode_list(items, ps, pcn, inner) {
                    Ok(xs) => Ok(Object::Tuple(None, xs)),
                    Err(e) => Err(e),
                },
            }
        },
        Value::Struct(name, fields) => {
            match name {
                Some(n) => {
                    if ps {
                        match decode_field_values(fields, ps, pcn, inner) {
                            Ok(xs) => {
                                let keys = clone_names(fields);
                                let class = TupleClass {
                                    name: n.clone(),
                                    n_bases: 1,
                                    base_is_tuple: true,
                                    fields: Some(keys),
                                };
                                Ok(Object::Tuple(Some(class), xs))
                            },
                            Err(e) => Err(e),
                        }
                    } else if pcn {
                        match decode_keyed_fields(fields, ps, pcn, inner) {
                            Ok(es) => {
                                let mut es = es;
                                let ghost before = pairs_view(es);
                                es.push((Object::Str(sentinel_name()), Object::Str(n.clone())));
                                assert(pairs_view(es) =~= before.push(sentinel_entry(n@)));
                                Ok(Object::Dict(es))
                            },
                            Err(e) => Err(e),
                        }
                    } else {
                        match decode_keyed_fields(fields, ps, pcn, inner) {
                            Ok(es) => Ok(Object::Dict(es)),
                            Err(e) => Err(e),
                        }
                    }
                },
                None => match decode_keyed_fields(fields, ps, pcn, inner) {
                    Ok(es) => Ok(Object::Dict(es)),
                    Err(e) => Err(e),
                },
            }
        },
        Value::Mapping(entries) => match decode_map(entries, ps, pcn, inner) {
            Ok(es) => Ok(Object::Dict(es)),
            Err(e) => Err(e),
        },
        Value::Include(p) => Err(Error::UnresolvedInclude(p.clone())),
    }
}

} // verus!
