//! The resolution engine: applying transforms to located values and
//! resolving a whole index chain in one pass, with short-circuit on failure.

use vstd::prelude::*;

use crate::model::{
    apply_model, chain_run, is_range_index, key_pos, range_bounds, range_ok, run_list,
    step_prepare, step_view, step_write, ValueModel,
};
use crate::value::{
    dict_find, lemma_key_pos_from_witness, lemma_model_entries, lemma_model_entries_is,
    lemma_model_ints, lemma_model_ints_is, lemma_model_list, lemma_model_path, lemma_model_seq,
    lemma_model_seq_is, model_opt, set_pos, Index, Key, Transform, Value,
};

verus! {

broadcast use vstd::std_specs::vec::group_vec_axioms, vstd::seq::group_seq_axioms;

/// Runs one transform against a located value.
///
/// Returns the new value for the location and the transform's result;
/// `prev` is the previous result threaded by a batch (`None` outside one).
pub fn apply_transform(t: Transform, v: Value, prev: Option<Value>) -> (r: (Value, Value))
    ensures
        r.0.model() == apply_model(t.model(), v.model(), model_opt(prev)).0,
        r.1.model() == apply_model(t.model(), v.model(), model_opt(prev)).1,
{
    match t {
        Transform::Replace(x) => (x, v),
        Transform::Touch => (v, Value::Unit),
        Transform::AddInt(d) => match v {
            Value::Int(x) => match x.checked_add(d) {
                Some(y) => (Value::Int(y), Value::Unit),
                None => (Value::Int(x), Value::Unit),
            },
            other => (other, Value::Unit),
        },
        Transform::SetFirst(n) => match v {
            Value::Arr(mut a) => {
                if a.len() > 0 {
                    let ghost a0 = a@;
                    let old_first = a.remove(0);
                    a.insert(0, Value::Int(n));
                    proof {
                        lemma_model_seq(a0);
                        lemma_model_seq_is(
                            a@,
                            Value::model_seq(a0).update(0, ValueModel::Int(n as int)),
                        );
                    }
                    (Value::Arr(a), old_first)
                } else {
                    proof {
                        lemma_model_seq(a@);
                    }
                    (Value::Arr(a), Value::Unit)
                }
            },
            other => (other, Value::Unit),
        },
        Transform::PushInt(n) => match v {
            Value::Arr(mut a) => {
                let ghost a0 = a@;
                a.push(Value::Int(n));
                proof {
                    lemma_model_seq(a0);
                    lemma_model_seq_is(
                        a@,
                        Value::model_seq(a0).push(ValueModel::Int(n as int)),
                    );
                }
                let first = a[0].duplicate();
                (Value::Arr(a), first)
            },
            other => (other, Value::Unit),
        },
        Transform::Accum(n) => {
            let p: i64 = match &prev {
                Some(Value::Int(q)) => *q,
                _ => 0,
            };
            let res = match n.checked_add(p) {
                Some(y) => Value::Int(y),
                None => Value::Int(n),
            };
            match v {
                Value::Arr(mut a) => {
                    let ghost a0 = a@;
                    a.push(Value::Int(n));
                    proof {
                        lemma_model_seq(a0);
                        lemma_model_seq_is(
                            a@,
                            Value::model_seq(a0).push(ValueModel::Int(n as int)),
                        );
                    }
                    (Value::Arr(a), res)
                },
                other => (other, res),
            }
        },
        Transform::Fetch => {
            let c = v.duplicate();
            (v, c)
        },
        Transform::LogPrev => {
            let item = match prev {
                Some(w) => w,
                None => Value::Unit,
            };
            match v {
                Value::Arr(mut a) => {
                    let len64: u64 = a.len() as u64;
                    let res = if len64 <= 0x7fff_ffff_ffff_ffff {
                        Value::Int(len64 as i64)
                    } else {
                        Value::Int(i64::MAX)
                    };
                    let ghost a0 = a@;
                    let ghost im = item.model();
                    a.push(item);
                    proof {
                        lemma_model_seq(a0);
                        lemma_model_seq_is(a@, Value::model_seq(a0).push(im));
                    }
                    (Value::Arr(a), res)
                },
                other => (other, Value::Unit),
            }
        },
    }
}

/// Runs a list of transforms against one located value, left to right,
/// threading each result into the next transform.  An empty list leaves the
/// value alone and hands `prev` back.
#[verifier::loop_isolation(false)]
pub fn run_transforms(ts: Vec<Transform>, v: Value, prev: Option<Value>) -> (r: (
    Value,
    Option<Value>,
))
    ensures
        r.0.model() == run_list(Transform::model_list(ts@), v.model(), model_opt(prev)).0,
        model_opt(r.1) == run_list(Transform::model_list(ts@), v.model(), model_opt(prev)).1,
{
    let ghost ts0 = Transform::model_list(ts@);
    let ghost m0 = v.model();
    let ghost p0 = model_opt(prev);
    let mut rest = ts;
    let mut cur = v;
    let mut acc = prev;
    loop
        invariant
            run_list(Transform::model_list(rest@), cur.model(), model_opt(acc)) == run_list(
                ts0,
                m0,
                p0,
            ),
        decreases rest@.len(),
    {
        if rest.len() == 0 {
            proof {
                lemma_model_list(rest@);
            }
            return (cur, acc);
        }
        let ghost rest0 = rest@;
        let t = rest.remove(0);
        proof {
            lemma_model_list(rest0);
            lemma_model_list(rest@);
            let ms = Transform::model_list(rest0);
            assert(Transform::model_list(rest@) =~= ms.drop_first());
            assert(ms[0] == t.model());
        }
        let (cur2, r) = apply_transform(t, cur, acc);
        cur = cur2;
        acc = Some(r);
    }
}

/// Decodes a range-shaped index against a sequence length: whether it
/// resolves, and the half-open bounds it denotes.
fn decode_range(i: &Index, len: usize) -> (r: (bool, usize, usize))
    ensures
        r.0 <==> (is_range_index(i.model()) && range_ok(i.model(), len as int)),
        r.0 ==> (r.1 as int, r.2 as int) == range_bounds(i.model(), len as int),
        r.0 ==> r.1 <= r.2 <= len,
{
    match i {
        Index::Range(a, b) => {
            if *b <= len && *a <= *b {
                (true, *a, *b)
            } else {
                (false, 0, 0)
            }
        },
        Index::RangeFrom(a) => {
            if *a <= len {
                (true, *a, len)
            } else {
                (false, 0, 0)
            }
        },
        Index::RangeTo(b) => {
            if *b <= len {
                (true, 0, *b)
            } else {
                (false, 0, 0)
            }
        },
        Index::RangeFull => (true, 0, len),
        Index::RangeIncl(a, b) => {
            if *b < len && *a <= *b + 1 {
                (true, *a, *b + 1)
            } else {
                (false, 0, 0)
            }
        },
        Index::RangeToIncl(b) => {
            if *b < len {
                (true, 0, *b + 1)
            } else {
                (false, 0, 0)
            }
        },
        _ => (false, 0, 0),
    }
}

/// Resolves the tail of `path` from position `from` against `v` in one pass,
/// then runs the transform list against the located leaf.
///
/// This is the whole composition engine: each level either fails — the chain
/// reports `None` and nothing below it ever ran — or descends into the
/// sub-value its index denotes and writes the transformed sub-value back
/// while unwinding.
#[verifier::rlimit(100)]
pub fn access_path(
    v: Value,
    path: &Vec<Index>,
    from: usize,
    ts: Vec<Transform>,
    seed: Option<Value>,
) -> (r: (Value, Option<Value>))
    requires
        from <= path@.len(),
    ensures
        ({
            let o = chain_run(
                v.model(),
                Index::model_path(path@).skip(from as int),
                Transform::model_list(ts@),
                model_opt(seed),
            );
            r.0.model() == o.0 && model_opt(r.1) == o.1
        }),
    decreases path@.len() - from,
{
    proof {
        lemma_model_path(path@);
    }
    let ghost vm = v.model();
    let ghost isuf = Index::model_path(path@).skip(from as int);
    if from == path.len() {
        let (v2, res) = run_transforms(ts, v, seed);
        return (v2, res);
    }
    let ghost im = path@[from as int].model();
    proof {
        assert(isuf[0] == im);
        assert(isuf.drop_first() =~= Index::model_path(path@).skip(from as int + 1));
    }
    let idx = &path[from];
    match idx {
        Index::At(n) => match v {
            Value::Arr(mut a) => {
                proof {
                    lemma_model_seq(a@);
                }
                if *n < a.len() {
                    let ghost a0 = a@;
                    let sub = a.remove(*n);
                    let (sub2, res) = access_path(sub, path, from + 1, ts, seed);
                    a.insert(*n, sub2);
                    proof {
                        lemma_model_seq(a0);
                        lemma_model_seq_is(
                            a@,
                            Value::model_seq(a0).update(*n as int, sub2.model()),
                        );
                    }
                    (Value::Arr(a), res)
                } else {
                    (Value::Arr(a), None)
                }
            },
            other => (other, None),
        },
        Index::Range(_, _) | Index::RangeFrom(_) | Index::RangeTo(_) | Index::RangeFull
            | Index::RangeIncl(_, _) | Index::RangeToIncl(_) => match v {
            Value::Arr(mut a) => {
                proof {
                    lemma_model_seq(a@);
                }
                let (ok, lo, hi) = decode_range(idx, a.len());
                if ok {
                    let ghost a0 = a@;
                    let mut right = a.split_off(hi);
                    let mid = a.split_off(lo);
                    proof {
                        lemma_model_seq(a0);
                        lemma_model_seq_is(
                            mid@,
                            Value::model_seq(a0).subrange(lo as int, hi as int),
                        );
                        assert(step_view(vm, im) == Value::Arr(mid).model());
                    }
                    let (mid2, res) = access_path(Value::Arr(mid), path, from + 1, ts, seed);
                    let ghost mid2m = mid2.model();
                    match mid2 {
                        Value::Arr(mut mv) => {
                            proof {
                                lemma_model_seq(mv@);
                            }
                            a.append(&mut mv);
                            a.append(&mut right);
                        },
                        other2 => {
                            a.push(other2);
                            a.append(&mut right);
                        },
                    }
                    proof {
                        lemma_model_seq_is(a@, step_write(vm, im, mid2m)->Arr_0);
                    }
                    (Value::Arr(a), res)
                } else {
                    (Value::Arr(a), None)
                }
            },
            other => (other, None),
        },
        Index::Key(k) => match v {
            Value::Dict(mut es) => {
                proof {
                    lemma_model_entries(es@);
                }
                match dict_find(&es, k) {
                    Some(p) => {
                        let ghost es0 = es@;
                        let (k0, sub) = es.remove(p);
                        let (sub2, res) = access_path(sub, path, from + 1, ts, seed);
                        es.insert(p, (k0, sub2));
                        proof {
                            lemma_model_entries(es0);
                            lemma_model_entries_is(
                                es@,
                                Value::model_entries(es0).update(
                                    p as int,
                                    (es0[p as int].0.model(), sub2.model()),
                                ),
                            );
                        }
                        (Value::Dict(es), res)
                    },
                    None => (Value::Dict(es), None),
                }
            },
            other => (other, None),
        },
        Index::Entry(k, d) => match v {
            Value::Dict(mut es) => {
                proof {
                    lemma_model_entries(es@);
                }
                let pos: usize = match dict_find(&es, k) {
                    Some(p) => p,
                    None => {
                        let ghost es0 = es@;
                        es.push((k.duplicate(), d.duplicate()));
                        proof {
                            lemma_model_entries(es0);
                            lemma_model_entries_is(
                                es@,
                                Value::model_entries(es0).push((k.model(), d.model())),
                            );
                            lemma_key_pos_from_witness(
                                Value::model_entries(es@),
                                k.model(),
                                es0.len() as int,
                            );
                        }
                        es.len() - 1
                    },
                };
                let ghost esp = es@;
                proof {
                    lemma_model_entries(esp);
                    assert(Value::Dict(es).model() == step_prepare(vm, im));
                    assert(pos as int == key_pos(Value::model_entries(esp), k.model()));
                }
                let (k0, sub) = es.remove(pos);
                let (sub2, res) = access_path(sub, path, from + 1, ts, seed);
                es.insert(pos, (k0, sub2));
                proof {
                    lemma_model_entries_is(
                        es@,
                        Value::model_entries(esp).update(
                            pos as int,
                            (esp[pos as int].0.model(), sub2.model()),
                        ),
                    );
                }
                (Value::Dict(es), res)
            },
            other => (other, None),
        },
        Index::EntryMod(k, d, tmut) => match v {
            Value::Dict(mut es) => {
                proof {
                    lemma_model_entries(es@);
                }
                let pos: usize = match dict_find(&es, k) {
                    Some(p) => {
                        let ghost es0 = es@;
                        let (k0, val) = es.remove(p);
                        let (val2, _ignored) = apply_transform((&**tmut).duplicate(), val, None);
                        es.insert(p, (k0, val2));
                        proof {
                            lemma_model_entries(es0);
                            lemma_model_entries_is(
                                es@,
                                Value::model_entries(es0).update(
                                    p as int,
                                    (es0[p as int].0.model(), val2.model()),
                                ),
                            );
                            crate::model::lemma_key_pos_keys_eq(
                                Value::model_entries(es0),
                                Value::model_entries(es@),
                                k.model(),
                            );
                        }
                        p
                    },
                    None => {
                        let ghost es0 = es@;
                        es.push((k.duplicate(), d.duplicate()));
                        proof {
                            lemma_model_entries(es0);
                            lemma_model_entries_is(
                                es@,
                                Value::model_entries(es0).push((k.model(), d.model())),
                            );
                            lemma_key_pos_from_witness(
                                Value::model_entries(es@),
                                k.model(),
                                es0.len() as int,
                            );
                        }
                        es.len() - 1
                    },
                };
                let ghost esp = es@;
                proof {
                    lemma_model_entries(esp);
                    assert(Value::Dict(es).model() == step_prepare(vm, im));
                    assert(pos as int == key_pos(Value::model_entries(esp), k.model()));
                }
                let (k0, sub) = es.remove(pos);
                let (sub2, res) = access_path(sub, path, from + 1, ts, seed);
                es.insert(pos, (k0, sub2));
                proof {
                    lemma_model_entries_is(
                        es@,
                        Value::model_entries(esp).update(
                            pos as int,
                            (esp[pos as int].0.model(), sub2.model()),
                        ),
                    );
                }
                (Value::Dict(es), res)
            },
            other => (other, None),
        },
        Index::Unwrap => match v {
            Value::Opt(o) => match o {
                Some(b) => {
                    let (sub2, res) = access_path(*b, path, from + 1, ts, seed);
                    (Value::Opt(Some(Box::new(sub2))), res)
                },
                None => (Value::Opt(None), None),
            },
            Value::Res(rr) => match rr {
                Ok(b) => {
                    let (sub2, res) = access_path(*b, path, from + 1, ts, seed);
                    (Value::Res(Ok(Box::new(sub2))), res)
                },
                Err(b) => (Value::Res(Err(b)), None),
            },
            other => (other, None),
        },
        Index::SetInsert(x) => match v {
            Value::IntSet(mut es) => {
                proof {
                    lemma_model_ints(es@);
                }
                if set_pos(&es, *x).is_none() {
                    let ghost e0 = es@;
                    es.push(*x);
                    proof {
                        lemma_model_ints(e0);
                        lemma_model_ints_is(es@, Value::model_ints(e0).push(*x as int));
                    }
                }
                let (sub2, res) = access_path(Value::IntSet(es), path, from + 1, ts, seed);
                (sub2, res)
            },
            other => (other, None),
        },
        Index::SetEntry(x) => match v {
            Value::IntSet(mut es) => {
                proof {
                    lemma_model_ints(es@);
                }
                match set_pos(&es, *x) {
                    Some(p) => {
                        let ghost e0 = es@;
                        es.remove(p);
                        proof {
                            lemma_model_ints(e0);
                            lemma_model_ints(es@);
                            Value::model_ints(e0).remove_ensures(p as int);
                            e0.remove_ensures(p as int);
                            lemma_model_ints_is(es@, Value::model_ints(e0).remove(p as int));
                        }
                    },
                    None => {},
                }
                let (sub2, res) = access_path(Value::Int(*x), path, from + 1, ts, seed);
                match sub2 {
                    Value::Int(y) => {
                        proof {
                            lemma_model_ints(es@);
                        }
                        if set_pos(&es, y).is_none() {
                            let ghost e1 = es@;
                            es.push(y);
                            proof {
                                lemma_model_ints(e1);
                                lemma_model_ints_is(es@, Value::model_ints(e1).push(y as int));
                            }
                        }
                        (Value::IntSet(es), res)
                    },
                    _ => (Value::IntSet(es), res),
                }
            },
            other => (other, None),
        },
        Index::SetKey(x) => match v {
            Value::IntSet(mut es) => {
                proof {
                    lemma_model_ints(es@);
                }
                match set_pos(&es, *x) {
                    Some(p) => {
                        let ghost e0 = es@;
                        es.remove(p);
                        proof {
                            lemma_model_ints(e0);
                            lemma_model_ints(es@);
                            Value::model_ints(e0).remove_ensures(p as int);
                            e0.remove_ensures(p as int);
                            lemma_model_ints_is(es@, Value::model_ints(e0).remove(p as int));
                        }
                        let (sub2, res) = access_path(Value::Int(*x), path, from + 1, ts, seed);
                        match sub2 {
                            Value::Int(y) => {
                                proof {
                                    lemma_model_ints(es@);
                                }
                                if set_pos(&es, y).is_none() {
                                    let ghost e1 = es@;
                                    es.push(y);
                                    proof {
                                        lemma_model_ints(e1);
                                        lemma_model_ints_is(
                                            es@,
                                            Value::model_ints(e1).push(y as int),
                                        );
                                    }
                                }
                                (Value::IntSet(es), res)
                            },
                            _ => (Value::IntSet(es), res),
                        }
                    },
                    None => (Value::IntSet(es), None),
                }
            },
            other => (other, None),
        },
    }
}

} // verus!
