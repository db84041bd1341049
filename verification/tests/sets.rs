use smart_access::at::Cps;
use smart_access::value::{Index, Transform, Value};

fn iset(xs: &[i64]) -> Value {
    Value::IntSet(xs.to_vec())
}

#[test]
fn set_chained_insertions() {
    let set = Value::IntSet(Vec::new());

    let (at, r) = set
        .at(Index::SetInsert(2))
        .at(Index::SetInsert(3))
        .at(Index::SetInsert(5))
        .at(Index::SetInsert(7))
        .touch();
    let set = at.into_root().unwrap();

    assert_eq!(r, Some(Value::Unit));
    assert_eq!(set, iset(&[2, 3, 5, 7]));

    // inserting an element again changes nothing
    let (at, r) = set.at(Index::SetInsert(3)).touch();
    let set = at.into_root().unwrap();
    assert_eq!(r, Some(Value::Unit));
    assert_eq!(set, iset(&[2, 3, 5, 7]));
}

#[test]
fn set_element_rekeying() {
    // a set element is taken out, transformed, and reinserted: the
    // transform may change the element itself
    let set = iset(&[1, 5, 9]);

    let (at, r) = set.at(Index::SetKey(5)).replace(Value::Int(6));
    let set = at.into_root().unwrap();
    assert_eq!(r, Some(Value::Int(5)));
    assert_eq!(set, iset(&[1, 9, 6]));

    // an absent element fails and the set stays as it was
    let (at, r) = set.at(Index::SetKey(5)).replace(Value::Int(7));
    let set = at.into_root().unwrap();
    assert_eq!(r, None);
    assert_eq!(set, iset(&[1, 9, 6]));
}

#[test]
fn set_entry_inserts_when_absent() {
    let set = iset(&[4]);

    // present: the element is reinserted unchanged by a touch
    let (at, r) = set.at(Index::SetEntry(4)).touch();
    let set = at.into_root().unwrap();
    assert_eq!(r, Some(Value::Unit));
    assert_eq!(set, iset(&[4]));

    // absent: the element appears
    let (at, r) = set.at(Index::SetEntry(11)).touch();
    let set = at.into_root().unwrap();
    assert_eq!(r, Some(Value::Unit));
    assert_eq!(set, iset(&[4, 11]));

    // transforming an element into one already present shrinks the set
    let (at, r) = set.at(Index::SetEntry(11)).replace(Value::Int(4));
    let set = at.into_root().unwrap();
    assert_eq!(r, Some(Value::Int(11)));
    assert_eq!(set, iset(&[4]));
}

#[test]
fn fetch_reads_without_writing() {
    let foo = Value::Arr(vec![Value::Str("alpha".to_string()), Value::Int(2)]);

    let (at, r) = foo.at(Index::At(0)).access(Transform::Fetch);
    let foo = at.into_root().unwrap();
    assert_eq!(r, Some(Value::Str("alpha".to_string())));
    assert_eq!(
        foo,
        Value::Arr(vec![Value::Str("alpha".to_string()), Value::Int(2)]),
    );
}
