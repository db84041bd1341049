use smart_access::at::Cps;
use smart_access::value::{Index, Transform, Value};

fn ints(xs: &[i64]) -> Value {
    Value::Arr(xs.iter().map(|x| Value::Int(*x)).collect())
}

#[test]
fn core_impls_test_slice() {
    let foo = ints(&[1, 2, 3, 4, 5]);

    let update = Transform::SetFirst;

    let (at, r) = foo.at(Index::Range(1, 3)).access(update(6));
    let foo = at.into_root().unwrap();
    assert!(r == Some(Value::Int(2)));
    assert!(foo == ints(&[1, 6, 3, 4, 5]));

    let (at, r) = foo.at(Index::RangeFrom(2)).access(update(7));
    let foo = at.into_root().unwrap();
    assert!(r == Some(Value::Int(3)));
    assert!(foo == ints(&[1, 6, 7, 4, 5]));

    let (at, r) = foo.at(Index::RangeTo(4)).access(update(8));
    let foo = at.into_root().unwrap();
    assert!(r == Some(Value::Int(1)));
    assert!(foo == ints(&[8, 6, 7, 4, 5]));

    let (at, r) = foo.at(Index::RangeFull).access(update(9));
    let foo = at.into_root().unwrap();
    assert!(r == Some(Value::Int(8)));
    assert!(foo == ints(&[9, 6, 7, 4, 5]));

    let (at, r) = foo.at(Index::RangeToIncl(6)).access(update(1));
    let foo = at.into_root().unwrap();
    assert!(r == None);
    assert!(foo == ints(&[9, 6, 7, 4, 5]));

    let (at, r) = foo.at(Index::RangeIncl(3, 4)).access(update(0));
    let foo = at.into_root().unwrap();
    assert!(r == Some(Value::Int(4)));
    assert!(foo == ints(&[9, 6, 7, 0, 5]));

    let (at, r) = foo.at(Index::At(4)).replace(Value::Int(1));
    let foo = at.into_root().unwrap();
    assert!(r == Some(Value::Int(5)));
    assert!(foo == ints(&[9, 6, 7, 0, 1]));
}

#[test]
fn core_impls_test_optional() {
    let foo = Value::Opt(Some(Box::new(Value::Int(0))));
    let bar = Value::Opt(None);

    let (at, r) = foo.at(Index::Unwrap).replace(Value::Int(1));
    let foo = at.into_root().unwrap();
    assert!(r == Some(Value::Int(0)));
    assert!(foo == Value::Opt(Some(Box::new(Value::Int(1)))));

    let (at, r) = bar.at(Index::Unwrap).replace(Value::Int(2));
    let bar = at.into_root().unwrap();
    assert!(r == None);
    assert!(bar == Value::Opt(None));

    let foo = Value::Res(Ok(Box::new(Value::Int(0))));
    let bar = Value::Res(Err(Box::new(Value::Int(1))));

    let (at, r) = foo.at(Index::Unwrap).replace(Value::Int(1));
    let foo = at.into_root().unwrap();
    assert!(r == Some(Value::Int(0)));
    assert!(foo == Value::Res(Ok(Box::new(Value::Int(1)))));

    let (at, r) = bar.at(Index::Unwrap).replace(Value::Int(2));
    let bar = at.into_root().unwrap();
    assert!(r == None);
    assert!(bar == Value::Res(Err(Box::new(Value::Int(1)))));
}
