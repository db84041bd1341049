use smart_access::at::Cps;
use smart_access::value::{Index, Key, Transform, Value};

fn ints(xs: &[i64]) -> Value {
    Value::Arr(xs.iter().map(|x| Value::Int(*x)).collect())
}

#[test]
fn owned_value_is_an_accessor() {
    // an exclusively owned value is itself a location: access always
    // succeeds on it
    let (foo, r) = Value::Int(1).replace(Value::Int(9));
    assert_eq!(r, Some(Value::Int(1)));
    assert_eq!(foo, Value::Int(9));

    let (foo, r) = foo.touch();
    assert_eq!(r, Some(Value::Unit));
    assert_eq!(foo, Value::Int(9));
}

#[test]
fn empty_segments_resolve() {
    let foo = ints(&[]);
    let (at, r) = foo.at(Index::RangeFull).access(Transform::Touch);
    let foo = at.into_root().unwrap();
    assert_eq!(r, Some(Value::Unit));
    assert_eq!(foo, ints(&[]));

    let foo = ints(&[1, 2, 3]);
    let (at, r) = foo.at(Index::Range(2, 2)).access(Transform::SetFirst(9));
    let foo = at.into_root().unwrap();
    // the empty segment resolved, but it has no first element to set
    assert_eq!(r, Some(Value::Unit));
    assert_eq!(foo, ints(&[1, 2, 3]));

    // an inclusive range may be empty when its start is one past its end
    let (at, r) = foo.at(Index::RangeIncl(2, 1)).access(Transform::Touch);
    let foo = at.into_root().unwrap();
    assert_eq!(r, Some(Value::Unit));
    assert_eq!(foo, ints(&[1, 2, 3]));
}

#[test]
fn entry_keeps_present_value() {
    let map = Value::Dict(vec![(Key::Int(1), Value::Int(10))]);
    let (at, r) = map.at(Index::Entry(Key::Int(1), Value::Int(99))).touch();
    let map = at.into_root().unwrap();
    assert_eq!(r, Some(Value::Unit));
    assert_eq!(map, Value::Dict(vec![(Key::Int(1), Value::Int(10))]));
}

#[test]
fn equal_keys_resolve_to_first() {
    // keys are meant to be unique; when they are not, the first entry wins
    let map = Value::Dict(vec![
        (Key::Int(1), Value::Int(10)),
        (Key::Int(1), Value::Int(20)),
    ]);
    let (at, r) = map.at(Index::Key(Key::Int(1))).replace(Value::Int(30));
    let map = at.into_root().unwrap();
    assert_eq!(r, Some(Value::Int(10)));
    assert_eq!(
        map,
        Value::Dict(vec![
            (Key::Int(1), Value::Int(30)),
            (Key::Int(1), Value::Int(20)),
        ]),
    );
}

#[test]
fn transforms_ignore_foreign_shapes() {
    let (v, r) = Value::Str("abc".to_string()).access(Transform::AddInt(1));
    assert_eq!(r, Some(Value::Unit));
    assert_eq!(v, Value::Str("abc".to_string()));

    let (v, r) = Value::Unit.access(Transform::PushInt(1));
    assert_eq!(r, Some(Value::Unit));
    assert_eq!(v, Value::Unit);
}

#[test]
fn deep_chain_resolves_in_one_pass() {
    let root = Value::Dict(vec![(
        Key::Str("rows".to_string()),
        Value::Arr(vec![Value::Opt(Some(Box::new(ints(&[5, 6]))))]),
    )]);

    let (at, r) = root
        .at(Index::Key(Key::Str("rows".to_string())))
        .at(Index::At(0))
        .at(Index::Unwrap)
        .at(Index::At(1))
        .replace(Value::Int(7));
    let root = at.into_root().unwrap();

    assert_eq!(r, Some(Value::Int(6)));
    assert_eq!(
        root,
        Value::Dict(vec![(
            Key::Str("rows".to_string()),
            Value::Arr(vec![Value::Opt(Some(Box::new(ints(&[5, 7]))))]),
        )]),
    );
}

#[test]
fn duplicate_makes_equal_values() {
    let v = Value::Dict(vec![
        (Key::Str("a".to_string()), ints(&[1, 2])),
        (Key::Int(3), Value::Opt(None)),
    ]);
    let w = v.duplicate();
    assert_eq!(v, w);
}

#[test]
fn mismatched_attach_fails_at_resolution() {
    // composition is untyped, so a chain meant for a sequence attaches to
    // any root; the mismatch surfaces as a failed resolution, never as a
    // partial mutation
    let map = Value::Dict(vec![(Key::Int(1), Value::Int(10))]);
    let path = smart_access::at::detached_at(Index::At(0));

    let (at, r) = map.attach(path).replace(Value::Int(0));
    let map = at.into_root().unwrap();
    assert_eq!(r, None);
    assert_eq!(map, Value::Dict(vec![(Key::Int(1), Value::Int(10))]));
}

#[test]
fn chained_ranges_then_element() {
    let foo = ints(&[4, 5, 6, 7]);

    let (at, r) = foo
        .at(Index::RangeFull)
        .at(Index::RangeIncl(1, 2))
        .at(Index::At(0))
        .replace(Value::Int(8));
    let foo = at.into_root().unwrap();

    assert_eq!(r, Some(Value::Int(5)));
    assert_eq!(foo, ints(&[4, 8, 6, 7]));
}

#[test]
fn entry_mod_mutates_present_inserts_absent() {
    let map = Value::Dict(vec![(Key::Int(42), Value::Int(2))]);
    let mutator = Transform::Replace(Value::Int(4));

    let (at, _) = map
        .at(Index::EntryMod(Key::Int(41), Value::Int(3), Box::new(mutator.duplicate())))
        .touch();
    let map = at.into_root().unwrap();
    let (at, _) = map
        .at(Index::EntryMod(Key::Int(42), Value::Int(3), Box::new(mutator)))
        .touch();
    let map = at.into_root().unwrap();

    assert_eq!(
        map,
        Value::Dict(vec![
            (Key::Int(42), Value::Int(4)),
            (Key::Int(41), Value::Int(3)),
        ]),
    );
}
