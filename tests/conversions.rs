use pyron::decode::try_val_to_py;
use pyron::encode::{extract, extract_at, is_namedtuple};
use pyron::error::{Diagnostic, Error};
use pyron::{loads, MAX_DEPTH};
use pyron::object::{Object, TupleClass};
use pyron::value::{Number, Value};

fn s(x: &str) -> String {
    x.to_string()
}

fn point_class() -> TupleClass {
    TupleClass {
        name: s("Point"),
        n_bases: 1,
        base_is_tuple: true,
        fields: Some(vec![s("a"), s("b")]),
    }
}

fn point() -> Object {
    Object::Tuple(Some(point_class()), vec![Object::Int(1), Object::Str(s("x"))])
}

fn is_str(o: &Object, want: &str) -> bool {
    matches!(o, Object::Str(x) if x == want)
}

fn is_int(o: &Object, want: i64) -> bool {
    matches!(o, Object::Int(x) if *x == want)
}

/// Structural equality of two objects, for the tests' expectations.
fn same(a: &Object, b: &Object) -> bool {
    match (a, b) {
        (Object::Null, Object::Null) => true,
        (Object::Bool(x), Object::Bool(y)) => x == y,
        (Object::Int(x), Object::Int(y)) => x == y,
        (Object::Float(x), Object::Float(y)) => x == y,
        (Object::Str(x), Object::Str(y)) => x == y,
        (Object::List(x), Object::List(y)) => {
            x.len() == y.len() && x.iter().zip(y).all(|(p, q)| same(p, q))
        }
        (Object::Tuple(None, x), Object::Tuple(None, y)) => {
            x.len() == y.len() && x.iter().zip(y).all(|(p, q)| same(p, q))
        }
        (Object::Dict(x), Object::Dict(y)) => {
            x.len() == y.len()
                && x.iter().zip(y).all(|(p, q)| same(&p.0, &q.0) && same(&p.1, &q.1))
        }
        _ => false,
    }
}

#[test]
fn named_record_encodes_as_named_struct() {
    let v = extract(&point()).unwrap();
    match v {
        Value::Struct(Some(name), fields) => {
            assert_eq!(name, "Point");
            assert_eq!(fields.len(), 2);
            assert_eq!(fields[0].0, "a");
            assert!(matches!(fields[0].1, Value::Number(Number::Integer(1))));
            assert_eq!(fields[1].0, "b");
            assert!(matches!(&fields[1].1, Value::String(x) if x == "x"));
        }
        other => panic!("unexpected {:?}", other),
    }
}

#[test]
fn preserve_structs_rebuilds_named_record() {
    let v = extract(&point()).unwrap();
    let o = loads(Ok(v), true, false).unwrap();
    match o {
        Object::Tuple(Some(class), items) => {
            assert_eq!(class.name, "Point");
            assert_eq!(class.n_bases, 1);
            assert!(class.base_is_tuple);
            assert_eq!(class.fields, Some(vec![s("a"), s("b")]));
            assert_eq!(items.len(), 2);
            assert!(is_int(&items[0], 1));
            assert!(is_str(&items[1], "x"));
        }
        other => panic!("unexpected {:?}", other),
    }
}

#[test]
fn preserve_class_names_adds_sentinel_key() {
    let v = extract(&point()).unwrap();
    let o = loads(Ok(v), false, true).unwrap();
    match o {
        Object::Dict(es) => {
            assert_eq!(es.len(), 3);
            assert!(is_str(&es[0].0, "a") && is_int(&es[0].1, 1));
            assert!(is_str(&es[1].0, "b") && is_str(&es[1].1, "x"));
            assert!(is_str(&es[2].0, "!__name__") && is_str(&es[2].1, "Point"));
        }
        other => panic!("unexpected {:?}", other),
    }
}

#[test]
fn default_policy_discards_names() {
    let v = extract(&point()).unwrap();
    let o = loads(Ok(v), false, false).unwrap();
    match o {
        Object::Dict(es) => {
            assert_eq!(es.len(), 2);
            assert!(is_str(&es[0].0, "a") && is_int(&es[0].1, 1));
            assert!(is_str(&es[1].0, "b") && is_str(&es[1].1, "x"));
        }
        other => panic!("unexpected {:?}", other),
    }
}

#[test]
fn both_flags_conflict() {
    let v = Value::Number(Number::Integer(3));
    assert!(matches!(loads(Ok(v), true, true), Err(Error::ConflictingPolicy)));
    let bad: Result<Value, Vec<Diagnostic>> = Err(vec![]);
    assert!(matches!(loads(bad, true, true), Err(Error::ConflictingPolicy)));
}

#[test]
fn parse_failure_keeps_diagnostics() {
    let d = Diagnostic { line: 2, column: 5, message: s("expected `)`") };
    match loads(Err(vec![d]), false, false) {
        Err(Error::ParseError(ds)) => {
            assert_eq!(ds.len(), 1);
            assert_eq!(ds[0].line, 2);
            assert_eq!(ds[0].column, 5);
            assert_eq!(ds[0].message, "expected `)`");
        }
        other => panic!("unexpected {:?}", other),
    }
}

#[test]
fn tuple_without_fields_encodes_unnamed() {
    let plain = Object::Tuple(None, vec![Object::Int(1), Object::Int(2)]);
    assert!(matches!(extract(&plain), Ok(Value::Tuple(None, ref xs)) if xs.len() == 2));
    let sub = TupleClass { name: s("Pair"), n_bases: 1, base_is_tuple: true, fields: None };
    let o = Object::Tuple(Some(sub), vec![Object::Int(1), Object::Int(2)]);
    assert!(matches!(extract(&o), Ok(Value::Tuple(None, ref xs)) if xs.len() == 2));
}

#[test]
fn tuple_with_two_bases_is_not_a_record() {
    let c = TupleClass { name: s("Odd"), n_bases: 2, base_is_tuple: false, fields: Some(vec![s("a")]) };
    assert!(!is_namedtuple(&Some(c)));
    let c = TupleClass { name: s("Odd"), n_bases: 2, base_is_tuple: false, fields: Some(vec![s("a")]) };
    let o = Object::Tuple(Some(c), vec![Object::Int(1)]);
    assert!(matches!(extract(&o), Ok(Value::Tuple(None, ref xs)) if xs.len() == 1));
    assert!(is_namedtuple(&Some(point_class())));
    assert!(!is_namedtuple(&None));
}

#[test]
fn unnamed_tuple_keeps_arity_under_any_policy() {
    for (ps, pcn) in [(false, false), (true, false), (false, true)] {
        let v = Value::Tuple(
            None,
            vec![Value::Unit, Value::Bool(true), Value::Number(Number::Integer(7))],
        );
        match loads(Ok(v), ps, pcn) {
            Ok(Object::Tuple(None, xs)) => {
                assert_eq!(xs.len(), 3);
                assert!(matches!(xs[0], Object::Null));
                assert!(matches!(xs[1], Object::Bool(true)));
                assert!(is_int(&xs[2], 7));
            }
            other => panic!("unexpected {:?}", other),
        }
    }
}

#[test]
fn tuple_key_round_trips() {
    let key = Object::Tuple(None, vec![Object::Int(1), Object::Str(s("x"))]);
    let o = Object::Dict(vec![(key, Object::Str(s("v")))]);
    let v = extract(&o).unwrap();
    let back = loads(Ok(v), false, false).unwrap();
    let key = Object::Tuple(None, vec![Object::Int(1), Object::Str(s("x"))]);
    let want = Object::Dict(vec![(key, Object::Str(s("v")))]);
    assert!(same(&back, &want));
}

#[test]
fn unsupported_type_names_its_type() {
    let o = Object::Instance(s("TextIOWrapper"), None);
    match extract(&o) {
        Err(Error::UnsupportedType(name)) => assert_eq!(name, "TextIOWrapper"),
        other => panic!("unexpected {:?}", other),
    }
    let nested = Object::List(vec![Object::Int(1), Object::Instance(s("socket"), None)]);
    assert!(matches!(extract(&nested), Err(Error::UnsupportedType(ref n)) if n == "socket"));
}

#[test]
fn include_is_rejected() {
    let v = Value::Include(s("other.ron"));
    match loads(Ok(v), false, false) {
        Err(Error::UnresolvedInclude(p)) => assert_eq!(p, "other.ron"),
        other => panic!("unexpected {:?}", other),
    }
    for (ps, pcn) in [(false, false), (true, false), (false, true)] {
        let nested = Value::Struct(
            Some(s("Cfg")),
            vec![(s("a"), Value::Unit), (s("b"), Value::Sequence(vec![Value::Include(s("other.ron"))]))],
        );
        assert!(matches!(loads(Ok(nested), ps, pcn), Err(Error::UnresolvedInclude(ref p)) if p == "other.ron"));
    }
}

#[test]
fn plain_containers_round_trip() {
    let one = 1.0f64.to_bits();
    let o = Object::Dict(vec![
        (
            Object::Str(s("a")),
            Object::List(vec![Object::Int(-4), Object::Float(one), Object::Null, Object::Bool(true)]),
        ),
        (Object::Int(2), Object::Str(s("two"))),
        (Object::Null, Object::Dict(vec![])),
    ]);
    let v = extract(&o).unwrap();
    match &v {
        Value::Mapping(es) => {
            assert_eq!(es.len(), 3);
            match &es[0].1 {
                Value::Sequence(xs) => {
                    assert!(matches!(xs[1], Value::Number(Number::Float(b)) if b == one));
                    assert!(matches!(xs[2], Value::Option(None)));
                }
                other => panic!("unexpected {:?}", other),
            }
        }
        other => panic!("unexpected {:?}", other),
    }
    let back = loads(Ok(v), false, false).unwrap();
    assert!(same(&back, &o));
}

#[test]
fn char_decodes_to_one_char_string() {
    let o = loads(Ok(Value::Char('q')), false, false).unwrap();
    assert!(is_str(&o, "q"));
}

#[test]
fn unit_and_none_both_decode_to_null() {
    assert!(matches!(loads(Ok(Value::Unit), false, false), Ok(Object::Null)));
    assert!(matches!(loads(Ok(Value::Option(None)), false, false), Ok(Object::Null)));
    let some = Value::Option(Some(Box::new(Value::Number(Number::Integer(5)))));
    assert!(matches!(loads(Ok(some), false, false), Ok(Object::Int(5))));
}

#[test]
fn named_tuple_value_gets_positional_keys() {
    let make = || {
        Value::Tuple(
            Some(s("Pair")),
            vec![Value::Number(Number::Integer(10)), Value::String(s("y"))],
        )
    };
    match loads(Ok(make()), false, true).unwrap() {
        Object::Dict(es) => {
            assert_eq!(es.len(), 3);
            assert!(is_str(&es[0].0, "_0") && is_int(&es[0].1, 10));
            assert!(is_str(&es[1].0, "_1") && is_str(&es[1].1, "y"));
            assert!(is_str(&es[2].0, "!__name__") && is_str(&es[2].1, "Pair"));
        }
        other => panic!("unexpected {:?}", other),
    }
    match loads(Ok(make()), true, false).unwrap() {
        Object::Tuple(Some(class), items) => {
            assert_eq!(class.name, "Pair");
            assert_eq!(class.fields, Some(vec![s("_0"), s("_1")]));
            assert_eq!(items.len(), 2);
        }
        other => panic!("unexpected {:?}", other),
    }
    assert!(matches!(loads(Ok(make()), false, false), Ok(Object::Tuple(None, ref xs)) if xs.len() == 2));
}

#[test]
fn many_positional_keys_are_decimal() {
    let items: Vec<Value> = (0..12).map(|i| Value::Number(Number::Integer(i))).collect();
    match loads(Ok(Value::Tuple(Some(s("T")), items)), false, true).unwrap() {
        Object::Dict(es) => {
            assert_eq!(es.len(), 13);
            assert!(is_str(&es[10].0, "_10"));
            assert!(is_str(&es[11].0, "_11"));
        }
        other => panic!("unexpected {:?}", other),
    }
}

#[test]
fn unhashable_keys_fail() {
    let list_key = Value::Mapping(vec![(Value::Sequence(vec![]), Value::Unit)]);
    assert!(matches!(loads(Ok(list_key), false, false), Err(Error::UnhashableKey)));
    let record_key = || {
        Value::Mapping(vec![(
            Value::Struct(Some(s("K")), vec![(s("a"), Value::Number(Number::Integer(1)))]),
            Value::Unit,
        )])
    };
    assert!(matches!(loads(Ok(record_key()), false, false), Err(Error::UnhashableKey)));
    assert!(matches!(loads(Ok(record_key()), false, true), Err(Error::UnhashableKey)));
    match loads(Ok(record_key()), true, false) {
        Ok(Object::Dict(es)) => {
            assert_eq!(es.len(), 1);
            assert!(matches!(&es[0].0, Object::Tuple(Some(c), _) if c.name == "K"));
        }
        other => panic!("unexpected {:?}", other),
    }
}

#[test]
fn dataclass_encodes_as_named_struct() {
    let o = Object::Instance(
        s("Config"),
        Some(vec![(s("depth"), Object::Int(3)), (s("tag"), Object::Null)]),
    );
    match extract(&o).unwrap() {
        Value::Struct(Some(name), fields) => {
            assert_eq!(name, "Config");
            assert_eq!(fields.len(), 2);
            assert_eq!(fields[0].0, "depth");
            assert!(matches!(fields[0].1, Value::Number(Number::Integer(3))));
            assert_eq!(fields[1].0, "tag");
            assert!(matches!(fields[1].1, Value::Option(None)));
        }
        other => panic!("unexpected {:?}", other),
    }
}

#[test]
fn record_with_fewer_names_than_items_pairs_the_shorter() {
    let c = TupleClass { name: s("P"), n_bases: 1, base_is_tuple: true, fields: Some(vec![s("a")]) };
    let o = Object::Tuple(Some(c), vec![Object::Int(1), Object::Instance(s("socket"), None)]);
    match extract(&o).unwrap() {
        Value::Struct(Some(name), fields) => {
            assert_eq!(name, "P");
            assert_eq!(fields.len(), 1);
        }
        other => panic!("unexpected {:?}", other),
    }
}

#[test]
fn first_failure_wins() {
    let v = Value::Sequence(vec![
        Value::Mapping(vec![(Value::Sequence(vec![]), Value::Unit)]),
        Value::Include(s("late.ron")),
    ]);
    assert!(matches!(loads(Ok(v), false, false), Err(Error::UnhashableKey)));
}

#[test]
fn nesting_beyond_the_limit_fails() {
    let mut v = Value::Number(Number::Integer(1));
    for _ in 0..MAX_DEPTH {
        v = Value::Sequence(vec![v]);
    }
    assert!(matches!(loads(Ok(v), false, false), Err(Error::DepthExceeded)));
    let mut w = Value::Number(Number::Integer(1));
    for _ in 0..MAX_DEPTH - 1 {
        w = Value::Sequence(vec![w]);
    }
    assert!(loads(Ok(w), false, false).is_ok());
}

#[test]
fn encoding_beyond_the_limit_fails() {
    let mut o = Object::Int(1);
    for _ in 0..MAX_DEPTH {
        o = Object::List(vec![o]);
    }
    assert!(matches!(extract(&o), Err(Error::DepthExceeded)));
    let shallow = Object::List(vec![Object::List(vec![])]);
    assert!(matches!(extract_at(&shallow, 1), Err(Error::DepthExceeded)));
    assert!(matches!(extract_at(&shallow, 2), Ok(Value::Sequence(ref xs)) if xs.len() == 1));
}

#[test]
fn decoder_rejects_both_flags() {
    let v = Value::Number(Number::Integer(3));
    assert!(matches!(try_val_to_py(&v, true, true, 10), Err(Error::ConflictingPolicy)));
    let v = Value::Number(Number::Integer(3));
    assert!(matches!(try_val_to_py(&v, true, false, 10), Ok(Object::Int(3))));
}
