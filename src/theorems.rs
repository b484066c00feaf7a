//! Properties of the conversions, stated over the models.
use vstd::prelude::*;
use crate::decode::{decode, decode_entries, decode_fields, decode_items};
use crate::encode::{encode, encode_attrs, encode_entries, encode_items};
use crate::error::{Diagnostic, ErrorModel};
use crate::object::{ClassModel, ObjectModel};
use crate::value::{Value, ValueModel};
use crate::load_outcome;

verus! {

/// A scalar: `None`, a boolean, an integer, a float or a string.
pub open spec fn scalar(o: ObjectModel) -> bool {
    o is Null || o is Bool || o is Int || o is Float || o is Str
}

/// A plain mapping entry: a scalar key and a plain value within `d` levels.
pub open spec fn plain_entry(e: (ObjectModel, ObjectModel), d: nat) -> bool
    decreases e, 1int,
{
    scalar(e.0) && plain(e.1, d)
}

/// A plain container graph nested at most `d` levels deep: scalars, lists
/// of plain objects, and mappings from scalars to plain objects.
pub open spec fn plain(o: ObjectModel, d: nat) -> bool
    decreases o, 0int,
{
    d > 0 && match o {
        ObjectModel::List(items) => forall|i: int|
            0 <= i < items.len() ==> plain(#[trigger] items[i], (d - 1) as nat),
        ObjectModel::Dict(es) => forall|i: int|
            0 <= i < es.len() ==> plain_entry(#[trigger] es[i], (d - 1) as nat),
        ObjectModel::Tuple(_, _) => false,
        ObjectModel::Instance(_, _) => false,
        _ => true,
    }
}

proof fn lemma_decode_items_prefix(
    xs: Seq<ValueModel>,
    ys: Seq<ValueModel>,
    k: int,
    ps: bool,
    pcn: bool,
    d: nat,
)
    requires
        0 <= k <= xs.len(),
        k <= ys.len(),
        xs.take(k) == ys.take(k),
    ensures
        decode_items(xs, k, ps, pcn, d) == decode_items(ys, k, ps, pcn, d),
    decreases k,
{
    if k > 0 {
        assert(xs.take(k - 1) =~= ys.take(k - 1)) by {
            assert(xs.take(k - 1) =~= xs.take(k).take(k - 1));
            assert(ys.take(k - 1) =~= ys.take(k).take(k - 1));
        }
        assert(xs[k - 1] == xs.take(k)[k - 1]);
        assert(ys[k - 1] == ys.take(k)[k - 1]);
        lemma_decode_items_prefix(xs, ys, k - 1, ps, pcn, d);
    }
}

proof fn lemma_decode_entries_prefix(
    xs: Seq<(ValueModel, ValueModel)>,
    ys: Seq<(ValueModel, ValueModel)>,
    k: int,
    ps: bool,
    pcn: bool,
    d: nat,
)
    requires
        0 <= k <= xs.len(),
        k <= ys.len(),
        xs.take(k) == ys.take(k),
    ensures
        decode_entries(xs, k, ps, pcn, d) == decode_entries(ys, k, ps, pcn, d),
    decreases k,
{
    if k > 0 {
        assert(xs.take(k - 1) =~= ys.take(k - 1)) by {
            assert(xs.take(k - 1) =~= xs.take(k).take(k - 1));
            assert(ys.take(k - 1) =~= ys.take(k).take(k - 1));
        }
        assert(xs[k - 1] == xs.take(k)[k - 1]);
        assert(ys[k - 1] == ys.take(k)[k - 1]);
        lemma_decode_entries_prefix(xs, ys, k - 1, ps, pcn, d);
    }
}

/// Round trip of plain containers: encoding a plain object graph always
/// succeeds, and decoding the result with a nesting allowance that covers
/// the graph gives back the same graph, under either preservation flag or neither.
pub proof fn lemma_round_trip(o: ObjectModel, ps: bool, pcn: bool, d: nat)
    requires
        plain(o, d),
        !(ps && pcn),
    ensures
        encode(o, d) is Ok,
        decode(encode(o, d)->Ok_0, ps, pcn, d) == Ok::<ObjectModel, ErrorModel>(o),
    decreases o, 0int,
{
    match o {
        ObjectModel::List(items) => {
            assert forall|i: int| 0 <= i < items.len() implies plain(#[trigger] items[i], (d - 1) as nat) by {
                assert(plain(ObjectModel::List(items), d));
            }
            lemma_round_trip_items(items, items.len() as int, ps, pcn, (d - 1) as nat);
            assert(items.take(items.len() as int) =~= items);
        },
        ObjectModel::Dict(es) => {
            lemma_round_trip_entries(es, es.len() as int, ps, pcn, (d - 1) as nat);
            assert(es.take(es.len() as int) =~= es);
        },
        _ => {},
    }
}

proof fn lemma_round_trip_items(s: Seq<ObjectModel>, n: int, ps: bool, pcn: bool, d: nat)
    requires
        0 <= n <= s.len(),
        !(ps && pcn),
        forall|i: int| 0 <= i < s.len() ==> plain(#[trigger] s[i], d),
    ensures
        encode_items(s, n, d) is Ok,
        encode_items(s, n, d)->Ok_0.len() == n,
        decode_items(encode_items(s, n, d)->Ok_0, n, ps, pcn, d) == Ok::<Seq<ObjectModel>, ErrorModel>(
            s.take(n),
        ),
    decreases s, n,
{
    if n > 0 {
        lemma_round_trip_items(s, n - 1, ps, pcn, d);
        lemma_round_trip(s[n - 1], ps, pcn, d);
        let xs = encode_items(s, n - 1, d)->Ok_0;
        let x = encode(s[n - 1], d)->Ok_0;
        assert(encode_items(s, n, d)->Ok_0 == xs.push(x));
        assert(xs.push(x).take(n - 1) =~= xs.take(n - 1));
        lemma_decode_items_prefix(xs.push(x), xs, n - 1, ps, pcn, d);
        assert(xs.push(x)[n - 1] == x);
        assert(s.take(n - 1).push(s[n - 1]) =~= s.take(n));
    } else {
        assert(s.take(0) =~= Seq::<ObjectModel>::empty());
    }
}

proof fn lemma_round_trip_entries(
    es: Seq<(ObjectModel, ObjectModel)>,
    n: int,
    ps: bool,
    pcn: bool,
    d: nat,
)
    requires
        0 <= n <= es.len(),
        !(ps && pcn),
        forall|i: int| 0 <= i < es.len() ==> plain_entry(#[trigger] es[i], d),
    ensures
        encode_entries(es, n, d) is Ok,
        encode_entries(es, n, d)->Ok_0.len() == n,
        decode_entries(encode_entries(es, n, d)->Ok_0, n, ps, pcn, d) == Ok::<
            Seq<(ObjectModel, ObjectModel)>,
            ErrorModel,
        >(es.take(n)),
    decreases es, n,
{
    if n > 0 {
        lemma_round_trip_entries(es, n - 1, ps, pcn, d);
        let e = es[n - 1];
        assert(plain_entry(e, d));
        assert(plain(e.0, d));
        lemma_round_trip(e.0, ps, pcn, d);
        lemma_round_trip(e.1, ps, pcn, d);
        assert(e.0.hashable());
        let xs = encode_entries(es, n - 1, d)->Ok_0;
        let x = (encode(e.0, d)->Ok_0, encode(e.1, d)->Ok_0);
        assert(encode_entries(es, n, d)->Ok_0 == xs.push(x));
        assert(xs.push(x).take(n - 1) =~= xs.take(n - 1));
        lemma_decode_entries_prefix(xs.push(x), xs, n - 1, ps, pcn, d);
        assert(xs.push(x)[n - 1] == x);
        assert(es.take(n - 1).push(e) =~= es.take(n));
    } else {
        assert(es.take(0) =~= Seq::<(ObjectModel, ObjectModel)>::empty());
    }
}

/// Whether an include directive occurs anywhere in the value.
pub open spec fn has_include(v: ValueModel) -> bool
    decreases v,
{
    match v {
        ValueModel::Include(_) => true,
        ValueModel::Opt(Some(b)) => has_include(*b),
        ValueModel::Sequence(items) => exists|i: int|
            0 <= i < items.len() && has_include(#[trigger] items[i]),
        ValueModel::Tuple(_, items) => exists|i: int|
            0 <= i < items.len() && has_include(#[trigger] items[i]),
        ValueModel::Struct(_, fs) => exists|i: int|
            0 <= i < fs.len() && has_include(#[trigger] fs[i].1),
        ValueModel::Mapping(es) => exists|i: int|
            0 <= i < es.len() && (has_include(#[trigger] es[i].0) || has_include(es[i].1)),
        _ => false,
    }
}

proof fn lemma_items_fail(s: Seq<ValueModel>, j: int, n: int, ps: bool, pcn: bool, depth: nat)
    requires
        0 <= j < n <= s.len(),
        decode(s[j], ps, pcn, depth) is Err,
    ensures
        decode_items(s, n, ps, pcn, depth) is Err,
    decreases n,
{
    if n - 1 > j {
        lemma_items_fail(s, j, n - 1, ps, pcn, depth);
    }
}

proof fn lemma_fields_fail(fs: Seq<(Seq<char>, ValueModel)>, j: int, n: int, ps: bool, pcn: bool, depth: nat)
    requires
        0 <= j < n <= fs.len(),
        decode(fs[j].1, ps, pcn, depth) is Err,
    ensures
        decode_fields(fs, n, ps, pcn, depth) is Err,
    decreases n,
{
    if n - 1 > j {
        lemma_fields_fail(fs, j, n - 1, ps, pcn, depth);
    }
}

proof fn lemma_entries_fail(es: Seq<(ValueModel, ValueModel)>, j: int, n: int, ps: bool, pcn: bool, depth: nat)
    requires
        0 <= j < n <= es.len(),
        decode(es[j].0, ps, pcn, depth) is Err || decode(es[j].1, ps, pcn, depth) is Err,
    ensures
        decode_entries(es, n, ps, pcn, depth) is Err,
    decreases n,
{
    if n - 1 > j {
        lemma_entries_fail(es, j, n - 1, ps, pcn, depth);
    }
}

/// Include rejection: a value holding an include directive anywhere never
/// decodes, whatever the flags and the nesting allowance; an include
/// directive itself fails naming its path.
pub proof fn lemma_include_rejected(v: ValueModel, ps: bool, pcn: bool, depth: nat)
    requires
        has_include(v),
    ensures
        decode(v, ps, pcn, depth) is Err,
        v is Include && depth > 0 && !(ps && pcn) ==> decode(v, ps, pcn, depth) == Err::<ObjectModel, ErrorModel>(
            ErrorModel::UnresolvedInclude(v->Include_0),
        ),
    decreases v,
{
    if depth > 0 {
        let inner = (depth - 1) as nat;
        match v {
            ValueModel::Opt(Some(b)) => {
                lemma_include_rejected(*b, ps, pcn, inner);
            },
            ValueModel::Sequence(items) => {
                let j = choose|i: int| 0 <= i < items.len() && has_include(#[trigger] items[i]);
                lemma_include_rejected(items[j], ps, pcn, inner);
                lemma_items_fail(items, j, items.len() as int, ps, pcn, inner);
            },
            ValueModel::Tuple(_, items) => {
                let j = choose|i: int| 0 <= i < items.len() && has_include(#[trigger] items[i]);
                lemma_include_rejected(items[j], ps, pcn, inner);
                lemma_items_fail(items, j, items.len() as int, ps, pcn, inner);
            },
            ValueModel::Struct(_, fs) => {
                let j = choose|i: int| 0 <= i < fs.len() && has_include(#[trigger] fs[i].1);
                lemma_include_rejected(fs[j].1, ps, pcn, inner);
                lemma_fields_fail(fs, j, fs.len() as int, ps, pcn, inner);
            },
            ValueModel::Mapping(es) => {
                let j = choose|i: int|
                    0 <= i < es.len() && (has_include(#[trigger] es[i].0) || has_include(es[i].1));
                if has_include(es[j].0) {
                    lemma_include_rejected(es[j].0, ps, pcn, inner);
                } else {
                    lemma_include_rejected(es[j].1, ps, pcn, inner);
                }
                lemma_entries_fail(es, j, es.len() as int, ps, pcn, inner);
            },
            _ => {},
        }
    }
}

/// Tuple against record: a tuple whose class declares no field names (or
/// the built-in tuple itself) encodes as an unnamed tuple of the same
/// arity, and an unnamed tuple of arity `n` decodes, under any flags, to a
/// plain tuple of `n` items, or fails.
pub proof fn lemma_unnamed_tuple(
    c: Option<ClassModel>,
    objects: Seq<ObjectModel>,
    values: Seq<ValueModel>,
    ps: bool,
    pcn: bool,
    depth: nat,
)
    requires
        c is None || c->Some_0.fields is None,
    ensures
        encode(ObjectModel::Tuple(c, objects), depth) is Ok ==> {
            let t = encode(ObjectModel::Tuple(c, objects), depth)->Ok_0;
            &&& t is Tuple
            &&& t->Tuple_0 is None
            &&& t->Tuple_1.len() == objects.len()
        },
        decode(ValueModel::Tuple(None, values), ps, pcn, depth) is Ok ==> {
            let t = decode(ValueModel::Tuple(None, values), ps, pcn, depth)->Ok_0;
            &&& t is Tuple
            &&& t->Tuple_0 is None
            &&& t->Tuple_1.len() == values.len()
        },
{
    if depth > 0 && encode_items(objects, objects.len() as int, (depth - 1) as nat) is Ok {
        crate::encode::lemma_items_len(objects, objects.len() as int, (depth - 1) as nat);
    }
    if depth > 0 && decode_items(values, values.len() as int, ps, pcn, (depth - 1) as nat) is Ok {
        crate::decode::lemma_items_len(values, values.len() as int, ps, pcn, (depth - 1) as nat);
    }
}

/// Unsupported type rejection: an object of no recognised kind fails to
/// encode, naming its type.
pub proof fn lemma_unsupported_type(class_name: Seq<char>, depth: nat)
    requires
        depth > 0,
    ensures
        encode(ObjectModel::Instance(class_name, None), depth) == Err::<ValueModel, ErrorModel>(
            ErrorModel::UnsupportedType(class_name),
        ),
{
}

/// Mutual exclusivity: with both preservation flags set, loading fails
/// with a policy conflict, whatever was parsed.
pub proof fn lemma_conflicting_policy(parsed: Result<Value, Vec<Diagnostic>>)
    ensures
        load_outcome(parsed, true, true) == Err::<ObjectModel, ErrorModel>(
            ErrorModel::ConflictingPolicy,
        ),
{
}

/// Whether an include directive of path `p` occurs anywhere in the value.
pub open spec fn includes_path(v: ValueModel, p: Seq<char>) -> bool
    decreases v,
{
    match v {
        ValueModel::Include(q) => q == p,
        ValueModel::Opt(Some(b)) => includes_path(*b, p),
        ValueModel::Sequence(items) => exists|i: int|
            0 <= i < items.len() && includes_path(#[trigger] items[i], p),
        ValueModel::Tuple(_, items) => exists|i: int|
            0 <= i < items.len() && includes_path(#[trigger] items[i], p),
        ValueModel::Struct(_, fs) => exists|i: int|
            0 <= i < fs.len() && includes_path(#[trigger] fs[i].1, p),
        ValueModel::Mapping(es) => exists|i: int|
            0 <= i < es.len() && (includes_path(#[trigger] es[i].0, p) || includes_path(es[i].1, p)),
        _ => false,
    }
}

proof fn lemma_items_err_source(s: Seq<ValueModel>, n: int, ps: bool, pcn: bool, depth: nat)
    requires
        0 <= n <= s.len(),
        decode_items(s, n, ps, pcn, depth) is Err,
    ensures
        exists|j: int|
            0 <= j < n && #[trigger] decode(s[j], ps, pcn, depth) is Err && decode(s[j], ps, pcn, depth)->Err_0
                == decode_items(s, n, ps, pcn, depth)->Err_0,
    decreases n,
{
    if decode_items(s, n - 1, ps, pcn, depth) is Err {
        lemma_items_err_source(s, n - 1, ps, pcn, depth);
    } else {
        assert(decode(s[n - 1], ps, pcn, depth) is Err);
    }
}

proof fn lemma_fields_err_source(fs: Seq<(Seq<char>, ValueModel)>, n: int, ps: bool, pcn: bool, depth: nat)
    requires
        0 <= n <= fs.len(),
        decode_fields(fs, n, ps, pcn, depth) is Err,
    ensures
        exists|j: int|
            0 <= j < n && #[trigger] decode(fs[j].1, ps, pcn, depth) is Err && decode(fs[j].1, ps, pcn, depth)->Err_0
                == decode_fields(fs, n, ps, pcn, depth)->Err_0,
    decreases n,
{
    if decode_fields(fs, n - 1, ps, pcn, depth) is Err {
        lemma_fields_err_source(fs, n - 1, ps, pcn, depth);
    } else {
        assert(decode(fs[n - 1].1, ps, pcn, depth) is Err);
    }
}

proof fn lemma_entries_err_source(es: Seq<(ValueModel, ValueModel)>, n: int, ps: bool, pcn: bool, depth: nat)
    requires
        0 <= n <= es.len(),
        decode_entries(es, n, ps, pcn, depth) is Err,
        !(decode_entries(es, n, ps, pcn, depth)->Err_0 is UnhashableKey),
    ensures
        exists|j: int|
            0 <= j < n && ((#[trigger] decode(es[j].0, ps, pcn, depth) is Err && decode(es[j].0, ps, pcn, depth)->Err_0
                == decode_entries(es, n, ps, pcn, depth)->Err_0) || (decode(es[j].1, ps, pcn, depth) is Err
                && decode(es[j].1, ps, pcn, depth)->Err_0 == decode_entries(es, n, ps, pcn, depth)->Err_0)),
    decreases n,
{
    if decode_entries(es, n - 1, ps, pcn, depth) is Err {
        lemma_entries_err_source(es, n - 1, ps, pcn, depth);
    } else if decode(es[n - 1].0, ps, pcn, depth) is Err {
    } else {
        assert(decode(es[n - 1].1, ps, pcn, depth) is Err);
    }
}

/// Include rejection names a real directive: whenever decoding fails on an
/// include, its path is that of an include directive in the value.
pub proof fn lemma_include_error_names_directive(v: ValueModel, ps: bool, pcn: bool, depth: nat)
    ensures
        decode(v, ps, pcn, depth) is Err && decode(v, ps, pcn, depth)->Err_0 is UnresolvedInclude
            ==> includes_path(v, decode(v, ps, pcn, depth)->Err_0->UnresolvedInclude_0),
    decreases v,
{
    if !(ps && pcn) && depth > 0 && decode(v, ps, pcn, depth) is Err && decode(
        v,
        ps,
        pcn,
        depth,
    )->Err_0 is UnresolvedInclude {
        let inner = (depth - 1) as nat;
        let p = decode(v, ps, pcn, depth)->Err_0->UnresolvedInclude_0;
        match v {
            ValueModel::Opt(Some(b)) => {
                lemma_include_error_names_directive(*b, ps, pcn, inner);
            },
            ValueModel::Sequence(items) => {
                lemma_items_err_source(items, items.len() as int, ps, pcn, inner);
                let j = choose|j: int|
                    0 <= j < items.len() && #[trigger] decode(items[j], ps, pcn, inner) is Err
                        && decode(items[j], ps, pcn, inner)->Err_0 == decode_items(
                        items,
                        items.len() as int,
                        ps,
                        pcn,
                        inner,
                    )->Err_0;
                lemma_include_error_names_directive(items[j], ps, pcn, inner);
                assert(includes_path(items[j], p));
            },
            ValueModel::Tuple(_, items) => {
                lemma_items_err_source(items, items.len() as int, ps, pcn, inner);
                let j = choose|j: int|
                    0 <= j < items.len() && #[trigger] decode(items[j], ps, pcn, inner) is Err
                        && decode(items[j], ps, pcn, inner)->Err_0 == decode_items(
                        items,
                        items.len() as int,
                        ps,
                        pcn,
                        inner,
                    )->Err_0;
                lemma_include_error_names_directive(items[j], ps, pcn, inner);
                assert(includes_path(items[j], p));
            },
            ValueModel::Struct(_, fs) => {
                lemma_fields_err_source(fs, fs.len() as int, ps, pcn, inner);
                let j = choose|j: int|
                    0 <= j < fs.len() && #[trigger] decode(fs[j].1, ps, pcn, inner) is Err
                        && decode(fs[j].1, ps, pcn, inner)->Err_0 == decode_fields(
                        fs,
                        fs.len() as int,
                        ps,
                        pcn,
                        inner,
                    )->Err_0;
                lemma_include_error_names_directive(fs[j].1, ps, pcn, inner);
                assert(includes_path(fs[j].1, p));
            },
            ValueModel::Mapping(es) => {
                lemma_entries_err_source(es, es.len() as int, ps, pcn, inner);
                let j = choose|j: int|
                    0 <= j < es.len() && ((#[trigger] decode(es[j].0, ps, pcn, inner) is Err && decode(
                        es[j].0,
                        ps,
                        pcn,
                        inner,
                    )->Err_0 == decode_entries(es, es.len() as int, ps, pcn, inner)->Err_0) || (decode(
                        es[j].1,
                        ps,
                        pcn,
                        inner,
                    ) is Err && decode(es[j].1, ps, pcn, inner)->Err_0 == decode_entries(
                        es,
                        es.len() as int,
                        ps,
                        pcn,
                        inner,
                    )->Err_0));
                lemma_include_error_names_directive(es[j].0, ps, pcn, inner);
                lemma_include_error_names_directive(es[j].1, ps, pcn, inner);
                assert(includes_path(es[j].0, p) || includes_path(es[j].1, p));
            },
            _ => {},
        }
    }
}

/// Whether an object of no recognised kind, of type `n`, occurs anywhere
/// in the graph.
pub open spec fn holds_unsupported(o: ObjectModel, n: Seq<char>) -> bool
    decreases o,
{
    match o {
        ObjectModel::Instance(t, None) => t == n,
        ObjectModel::Instance(_, Some(fs)) => exists|i: int|
            0 <= i < fs.len() && holds_unsupported(#[trigger] fs[i].1, n),
        ObjectModel::List(items) => exists|i: int|
            0 <= i < items.len() && holds_unsupported(#[trigger] items[i], n),
        ObjectModel::Tuple(_, items) => exists|i: int|
            0 <= i < items.len() && holds_unsupported(#[trigger] items[i], n),
        ObjectModel::Dict(es) => exists|i: int|
            0 <= i < es.len() && (holds_unsupported(#[trigger] es[i].0, n) || holds_unsupported(es[i].1, n)),
        _ => false,
    }
}

proof fn lemma_encode_items_err_source(s: Seq<ObjectModel>, n: int, d: nat)
    requires
        0 <= n <= s.len(),
        encode_items(s, n, d) is Err,
    ensures
        exists|j: int|
            0 <= j < n && #[trigger] encode(s[j], d) is Err && encode(s[j], d)->Err_0 == encode_items(
                s,
                n,
                d,
            )->Err_0,
    decreases n,
{
    if encode_items(s, n - 1, d) is Err {
        lemma_encode_items_err_source(s, n - 1, d);
    } else {
        assert(encode(s[n - 1], d) is Err);
    }
}

proof fn lemma_encode_attrs_err_source(fs: Seq<(Seq<char>, ObjectModel)>, n: int, d: nat)
    requires
        0 <= n <= fs.len(),
        encode_attrs(fs, n, d) is Err,
    ensures
        exists|j: int|
            0 <= j < n && #[trigger] encode(fs[j].1, d) is Err && encode(fs[j].1, d)->Err_0 == encode_attrs(
                fs,
                n,
                d,
            )->Err_0,
    decreases n,
{
    if encode_attrs(fs, n - 1, d) is Err {
        lemma_encode_attrs_err_source(fs, n - 1, d);
    } else {
        assert(encode(fs[n - 1].1, d) is Err);
    }
}

proof fn lemma_encode_entries_err_source(es: Seq<(ObjectModel, ObjectModel)>, n: int, d: nat)
    requires
        0 <= n <= es.len(),
        encode_entries(es, n, d) is Err,
    ensures
        exists|j: int|
            0 <= j < n && ((#[trigger] encode(es[j].0, d) is Err && encode(es[j].0, d)->Err_0
                == encode_entries(es, n, d)->Err_0) || (encode(es[j].1, d) is Err && encode(es[j].1, d)->Err_0
                == encode_entries(es, n, d)->Err_0)),
    decreases n,
{
    if encode_entries(es, n - 1, d) is Err {
        lemma_encode_entries_err_source(es, n - 1, d);
    } else if encode(es[n - 1].0, d) is Err {
    } else {
        assert(encode(es[n - 1].1, d) is Err);
    }
}

/// Unsupported type rejection at any depth: whenever encoding fails on an
/// unsupported object, the type it names is that of an object of no
/// recognised kind inside the graph.
pub proof fn lemma_unsupported_error_names_object(o: ObjectModel, d: nat)
    ensures
        encode(o, d) is Err && encode(o, d)->Err_0 is UnsupportedType ==> holds_unsupported(
            o,
            encode(o, d)->Err_0->UnsupportedType_0,
        ),
    decreases o,
{
    if d > 0 && encode(o, d) is Err && encode(o, d)->Err_0 is UnsupportedType {
        let inner = (d - 1) as nat;
        let n = encode(o, d)->Err_0->UnsupportedType_0;
        match o {
            ObjectModel::List(items) => {
                lemma_encode_items_err_source(items, items.len() as int, inner);
                let j = choose|j: int|
                    0 <= j < items.len() && #[trigger] encode(items[j], inner) is Err && encode(
                        items[j],
                        inner,
                    )->Err_0 == encode_items(items, items.len() as int, inner)->Err_0;
                lemma_unsupported_error_names_object(items[j], inner);
                assert(holds_unsupported(items[j], n));
            },
            ObjectModel::Tuple(c, items) => {
                let k = if crate::encode::named_record_class(c) {
                    crate::encode::paired_len(c->Some_0, items)
                } else {
                    items.len() as int
                };
                lemma_encode_items_err_source(items, k, inner);
                let j = choose|j: int|
                    0 <= j < k && #[trigger] encode(items[j], inner) is Err && encode(
                        items[j],
                        inner,
                    )->Err_0 == encode_items(items, k, inner)->Err_0;
                lemma_unsupported_error_names_object(items[j], inner);
                assert(holds_unsupported(items[j], n));
            },
            ObjectModel::Instance(_, Some(fs)) => {
                lemma_encode_attrs_err_source(fs, fs.len() as int, inner);
                let j = choose|j: int|
                    0 <= j < fs.len() && #[trigger] encode(fs[j].1, inner) is Err && encode(
                        fs[j].1,
                        inner,
                    )->Err_0 == encode_attrs(fs, fs.len() as int, inner)->Err_0;
                lemma_unsupported_error_names_object(fs[j].1, inner);
                assert(holds_unsupported(fs[j].1, n));
            },
            ObjectModel::Dict(es) => {
                lemma_encode_entries_err_source(es, es.len() as int, inner);
                let j = choose|j: int|
                    0 <= j < es.len() && ((#[trigger] encode(es[j].0, inner) is Err && encode(
                        es[j].0,
                        inner,
                    )->Err_0 == encode_entries(es, es.len() as int, inner)->Err_0) || (encode(
                        es[j].1,
                        inner,
                    ) is Err && encode(es[j].1, inner)->Err_0 == encode_entries(
                        es,
                        es.len() as int,
                        inner,
                    )->Err_0));
                lemma_unsupported_error_names_object(es[j].0, inner);
                lemma_unsupported_error_names_object(es[j].1, inner);
                assert(holds_unsupported(es[j].0, n) || holds_unsupported(es[j].1, n));
            },
            _ => {},
        }
    }
}

} // verus!
