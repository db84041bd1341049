use smart_access::at::{detached_at, Cps};
use smart_access::batch::{new_batch_ct, new_batch_rt};
use smart_access::value::{Index, Key, Transform, Value};

fn ints(xs: &[i64]) -> Value {
    Value::Arr(xs.iter().map(|x| Value::Int(*x)).collect())
}

fn nested(xss: &[&[i64]]) -> Value {
    Value::Arr(xss.iter().map(|xs| ints(xs)).collect())
}

#[test]
fn nested_replace_scenario() {
    let foo = nested(&[&[1, 2, 3], &[4, 5, 6]]);

    let (at, bar) = foo.at(Index::At(0)).at(Index::At(1)).replace(Value::Int(7));
    let foo = at.into_root().unwrap();
    assert_eq!(bar, Some(Value::Int(2)));
    assert_eq!(foo, nested(&[&[1, 7, 3], &[4, 5, 6]]));

    let (at, baz) = foo.at(Index::At(2)).at(Index::At(1)).replace(Value::Int(8));
    let foo = at.into_root().unwrap();
    assert_eq!(baz, None);
    assert_eq!(foo, nested(&[&[1, 7, 3], &[4, 5, 6]]));
}

#[test]
fn map_upsert_scenario() {
    let map = Value::Dict(Vec::new());

    let (at, r) = map.at(Index::Entry(Key::Int(42), Value::Int(1))).touch();
    let map = at.into_root().unwrap();
    assert_eq!(r, Some(Value::Unit));
    assert_eq!(map, Value::Dict(vec![(Key::Int(42), Value::Int(1))]));

    let (at, r) = map.at(Index::Key(Key::Int(42))).access(Transform::AddInt(1));
    let map = at.into_root().unwrap();
    assert_eq!(r, Some(Value::Unit));
    assert_eq!(map, Value::Dict(vec![(Key::Int(42), Value::Int(2))]));

    let (at, r) = map.at(Index::Key(Key::Int(43))).replace(Value::Int(5));
    let map = at.into_root().unwrap();
    assert_eq!(r, None);
    assert_eq!(map, Value::Dict(vec![(Key::Int(42), Value::Int(2))]));
}

#[test]
fn chain_short_circuit_probe() {
    // the probe transform always mutates when it runs: an unchanged root
    // shows the second level's transform was never invoked
    let foo = nested(&[&[1, 2]]);

    let (at, r) = foo.at(Index::At(5)).at(Index::At(0)).access(Transform::SetFirst(9));
    let foo = at.into_root().unwrap();
    assert_eq!(r, None);
    assert_eq!(foo, nested(&[&[1, 2]]));
}

#[test]
fn replace_round_trip() {
    let foo = ints(&[10, 20, 30]);

    let (at, old) = foo.at(Index::At(1)).replace(Value::Int(99));
    let foo = at.into_root().unwrap();
    assert_eq!(old, Some(Value::Int(20)));

    let (at, again) = foo.at(Index::At(1)).replace(Value::Int(0));
    let foo = at.into_root().unwrap();
    assert_eq!(again, Some(Value::Int(99)));
    assert_eq!(foo, ints(&[10, 0, 30]));
}

#[test]
fn batch_ordering() {
    // each transform appends its own marker to the log and passes its
    // result forward; the log shows left-to-right order and the final
    // output is the last transform's result
    let log = ints(&[]);

    let (log, r) = new_batch_ct(log)
        .add(Transform::Accum(1))
        .add(Transform::Accum(2))
        .add(Transform::Accum(4))
        .run();

    assert_eq!(log, ints(&[1, 2, 4]));
    assert_eq!(r, Some(Value::Int(7)));
}

#[test]
fn empty_batch_does_not_touch_accessor() {
    // the path holds an insert-on-absent index: had the accessor been
    // resolved, the map would hold the key afterwards
    let map = Value::Dict(Vec::new());
    let path = map.at(Index::Entry(Key::Int(1), Value::Int(0)));

    let (path, r) = new_batch_ct(path).run();
    let map = path.into_root().unwrap();
    assert_eq!(r, None);
    assert_eq!(map, Value::Dict(Vec::new()));

    let map2 = Value::Dict(Vec::new());
    let path2 = map2.at(Index::Entry(Key::Int(1), Value::Int(0)));
    let (path2, r2) = new_batch_rt(path2).run();
    let map2 = path2.into_root().unwrap();
    assert_eq!(r2, None);
    assert_eq!(map2, Value::Dict(Vec::new()));
}

#[test]
fn dynamic_batch_threading() {
    // the first transform logs the unit placeholder (it received no
    // previous result); each later one logs exactly its predecessor's
    // result
    let log = ints(&[]);

    let (log, r) = new_batch_rt(log)
        .add(Transform::LogPrev)
        .add(Transform::LogPrev)
        .add(Transform::LogPrev)
        .run();

    assert_eq!(
        log,
        Value::Arr(vec![Value::Unit, Value::Int(0), Value::Int(1)]),
    );
    assert_eq!(r, Some(Value::Int(2)));
}

#[test]
fn popping_last_transform_keeps_prefix() {
    let full = {
        let (log, r) = new_batch_rt(ints(&[]))
            .add(Transform::Accum(1))
            .add(Transform::Accum(2))
            .add(Transform::Accum(4))
            .run();
        (log, r)
    };
    let mut popped = None;
    let shorter = {
        let (log, r) = new_batch_rt(ints(&[]))
            .add(Transform::Accum(1))
            .add(Transform::Accum(2))
            .add(Transform::Accum(4))
            .pop(&mut popped)
            .run();
        (log, r)
    };

    assert_eq!(popped, Some(Transform::Accum(4)));
    assert_eq!(full.0, ints(&[1, 2, 4]));
    assert_eq!(full.1, Some(Value::Int(7)));
    // only the final threaded value changed, not the earlier steps
    assert_eq!(shorter.0, ints(&[1, 2]));
    assert_eq!(shorter.1, Some(Value::Int(3)));
}

#[test]
fn detach_attach_preserves_chain() {
    let foo = nested(&[&[7, 8]]);
    let bar = nested(&[&[7, 8]]);

    let (left, detached) = foo.at(Index::At(0)).at(Index::At(1)).detach();
    let foo = left.into_root().unwrap();
    assert_eq!(foo, nested(&[&[7, 8]]));

    // the same detached path, copied, works against many roots
    let the_same_path = detached.duplicate();

    let (at, r) = bar.attach(the_same_path).replace(Value::Int(1));
    let bar = at.into_root().unwrap();
    assert_eq!(r, Some(Value::Int(8)));
    assert_eq!(bar, nested(&[&[7, 1]]));

    let (at, r) = foo.attach(detached).replace(Value::Int(2));
    let foo = at.into_root().unwrap();
    assert_eq!(r, Some(Value::Int(8)));
    assert_eq!(foo, nested(&[&[7, 2]]));
    assert_eq!(bar, nested(&[&[7, 1]]));
}

#[test]
fn cut_marks_detach_point() {
    let foo = Value::Opt(Some(Box::new(Value::Opt(Some(Box::new(Value::Int(1)))))));
    let bar = Value::Opt(Some(Box::new(Value::Int(2))));

    let (left, right) = foo.at(Index::Unwrap).cut().at(Index::Unwrap).detach();

    let (at, r) = bar.attach(right).replace(Value::Int(3));
    let bar = at.into_root().unwrap();
    assert_eq!(r, Some(Value::Int(2)));
    assert_eq!(bar, Value::Opt(Some(Box::new(Value::Int(3)))));

    let (at, r) = left.at(Index::Unwrap).replace(Value::Int(4));
    let foo = at.into_root().unwrap();
    assert_eq!(r, Some(Value::Int(1)));
    assert_eq!(
        foo,
        Value::Opt(Some(Box::new(Value::Opt(Some(Box::new(Value::Int(4))))))),
    );
}

#[test]
fn detached_path_composes_further() {
    let reference_path = detached_at(Index::Unwrap).at(Index::Unwrap);

    let item = Value::Opt(Some(Box::new(Value::Res(Ok(Box::new(Value::Int(1)))))));
    let (at, r) = item.attach(reference_path.duplicate()).replace(Value::Int(9));
    let item = at.into_root().unwrap();
    assert_eq!(r, Some(Value::Int(1)));
    assert_eq!(
        item,
        Value::Opt(Some(Box::new(Value::Res(Ok(Box::new(Value::Int(9))))))),
    );

    // a detached path resolved directly always fails
    let (_at, r) = reference_path.access(Transform::Touch);
    assert_eq!(r, None);
}

#[test]
fn unresolved_indices_leave_data_alone() {
    let foo = ints(&[1, 2, 3]);
    let (at, r) = foo.at(Index::At(3)).replace(Value::Int(0));
    let foo = at.into_root().unwrap();
    assert_eq!(r, None);
    assert_eq!(foo, ints(&[1, 2, 3]));

    let (at, r) = foo.at(Index::Range(2, 1)).access(Transform::Touch);
    let foo = at.into_root().unwrap();
    assert_eq!(r, None);

    let (at, r) = foo.at(Index::RangeFrom(4)).access(Transform::Touch);
    let foo = at.into_root().unwrap();
    assert_eq!(r, None);

    // an index of the wrong shape for the container also fails
    let (at, r) = foo.at(Index::Unwrap).access(Transform::Touch);
    let foo = at.into_root().unwrap();
    assert_eq!(r, None);

    let n = Value::Int(5);
    let (at, r) = n.at(Index::At(0)).access(Transform::Touch);
    let n = at.into_root().unwrap();
    assert_eq!(r, None);
    assert_eq!(n, Value::Int(5));
    assert_eq!(foo, ints(&[1, 2, 3]));
}

#[test]
fn edit_swaps_transform_list() {
    let mut batch = new_batch_rt(Value::Int(1))
        .add(Transform::AddInt(5))
        .add(Transform::AddInt(6));
    assert_eq!(batch.len(), 2);

    let old = batch.edit(vec![Transform::AddInt(1)]);
    assert_eq!(old, vec![Transform::AddInt(5), Transform::AddInt(6)]);
    assert_eq!(batch.len(), 1);

    let (foo, _) = batch.run();
    assert_eq!(foo, Value::Int(2));
}

#[test]
fn split_last_breaks_a_component_off() {
    let at = ints(&[1, 2]).at(Index::At(0)).at(Index::At(1));
    assert_eq!(at.depth(), 2);

    let (at, last) = at.split_last();
    assert_eq!(last, Some(Index::At(1)));
    assert_eq!(at.depth(), 1);

    let (at, r) = at.replace(Value::Int(7));
    assert_eq!(r, Some(Value::Int(1)));
    assert_eq!(at.into_root().unwrap(), ints(&[7, 2]));
}

#[test]
fn entry_keeps_insert_on_deeper_failure() {
    // a failure below an insert-on-absent level keeps the insert: levels
    // above a failure keep what their own resolution already did
    let map = Value::Dict(Vec::new());
    let (at, r) = map
        .at(Index::Entry(Key::Int(7), ints(&[])))
        .at(Index::At(0))
        .access(Transform::Touch);
    let map = at.into_root().unwrap();
    assert_eq!(r, None);
    assert_eq!(map, Value::Dict(vec![(Key::Int(7), ints(&[]))]));
}

#[test]
fn overflow_leaves_integer_unchanged() {
    let n = Value::Int(i64::MAX);

    let (n, _) = n.access(Transform::AddInt(1));
    assert_eq!(n, Value::Int(i64::MAX));

    let (n, _) = n.access(Transform::AddInt(-1));
    assert_eq!(n, Value::Int(i64::MAX - 1));
}
