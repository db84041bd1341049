use smart_access::access::apply_transform;
use smart_access::at::Cps;
use smart_access::batch::{new_batch_ct, new_batch_rt};
use smart_access::value::{Transform, Value};

#[test]
fn test_ct_batch_editing() {
    let foo = Value::Int(1);

    let mut scratch = None;
    let (foo, _) = new_batch_ct(foo)
        .add(Transform::AddInt(1))
        .add(Transform::AddInt(1))
        .pop(&mut scratch)
        .run();

    assert!(foo == Value::Int(2));

    let (foo, _) = new_batch_ct(foo)
        .add(Transform::AddInt(1))
        .add(Transform::AddInt(1))
        .clear()
        .run();

    assert!(foo == Value::Int(2));
}

#[test]
fn test_rt_batch_editing() {
    let foo = Value::Int(1);

    let mut scratch = None;
    let (foo, _) = new_batch_rt(foo)
        .add(Transform::AddInt(1))
        .add(Transform::AddInt(1))
        .pop(&mut scratch)
        .run();

    assert!(foo == Value::Int(2));

    let (foo, _) = new_batch_rt(foo)
        .add(Transform::AddInt(1))
        .add(Transform::AddInt(1))
        .clear()
        .run();

    assert!(foo == Value::Int(2));

    let mut maybe_f = None;
    let (foo, _) = new_batch_rt(foo)
        .add(Transform::AddInt(1))
        .add(Transform::AddInt(1))
        .pop(&mut maybe_f)
        .run();

    assert!(foo == Value::Int(3));

    let (foo, _) = apply_transform(maybe_f.unwrap(), foo, None);
    assert!(foo == Value::Int(4));
}
