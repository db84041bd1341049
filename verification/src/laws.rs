//! The laws of the access protocol, proved once and for all over the model
//! semantics: failure is a no-op, chains short-circuit, a replace round
//! trips, batches thread their results in order, and a detached chain
//! attached to a new root resolves exactly as the same chain composed on
//! that root directly.

use vstd::prelude::*;

use crate::at::{Cps, AT};
use crate::model::{
    apply_model, chain_run, has_key, is_range_index, key_pos, range_bounds, run_list,
    step_prepare, step_resolves, step_view, step_write, IndexModel, TransformModel, ValueModel,
};

verus! {

broadcast use vstd::seq::group_seq_axioms;

/// An index that does not resolve leaves the container untouched and the
/// whole chain reports failure, whatever stands behind it.
pub proof fn lemma_unresolved_failure(
    m: ValueModel,
    is: Seq<IndexModel>,
    ts: Seq<TransformModel>,
    seed: Option<ValueModel>,
)
    requires
        is.len() > 0,
        !step_resolves(m, is[0]),
    ensures
        chain_run(m, is, ts, seed) == (m, None::<ValueModel>),
{
}

/// Short-circuit at depth two: when the first index of a two-step path
/// fails to resolve, nothing below it runs — the root is unchanged and no
/// transform was applied anywhere.
pub proof fn lemma_chain_short_circuit(
    m: ValueModel,
    i1: IndexModel,
    i2: IndexModel,
    ts: Seq<TransformModel>,
    seed: Option<ValueModel>,
)
    requires
        !step_resolves(m, i1),
    ensures
        chain_run(m, seq![i1, i2], ts, seed) == (m, None::<ValueModel>),
{
}

/// Whether replacing the location denoted by `i` with `x` keeps the shape
/// the index relies on: a range location must receive a sequence of the
/// segment's own length, and a set location — identified by the element
/// itself — only round-trips when the element is put back (a replacement
/// re-keys the element, and the old key then denotes something else).
/// Every other location takes any value.  A replace through a size-changing
/// range shifts what the same bounds denote, so the round trip below is
/// owed only for shape-keeping replacements.
pub open spec fn replace_keeps_shape(m: ValueModel, i: IndexModel, x: ValueModel) -> bool {
    if is_range_index(i) {
        match m {
            ValueModel::Arr(s) => {
                let (lo, hi) = range_bounds(i, s.len() as int);
                match x {
                    ValueModel::Arr(xs) => xs.len() == hi - lo,
                    _ => false,
                }
            },
            _ => true,
        }
    } else {
        match i {
            IndexModel::EntryMod(_, _, t) => apply_model(t, x, None).0 == x,
            IndexModel::SetInsert(e) => match x {
                ValueModel::IntSet(xs) => crate::model::has_elem(xs, e),
                _ => false,
            },
            IndexModel::SetEntry(e) => x == ValueModel::Int(e),
            IndexModel::SetKey(e) => x == ValueModel::Int(e),
            _ => true,
        }
    }
}

/// Replace round-trip: a resolvable single-level `replace(x)` returns the
/// value that was there, and resolving the same index afterwards finds `x`.
pub proof fn lemma_replace_round_trip(m: ValueModel, i: IndexModel, x: ValueModel)
    requires
        step_resolves(m, i),
        replace_keeps_shape(m, i, x),
    ensures
        ({
            let o = chain_run(m, seq![i], seq![TransformModel::Replace(x)], None);
            &&& o.1 == Some(step_view(step_prepare(m, i), i))
            &&& step_resolves(o.0, i)
            &&& step_view(step_prepare(o.0, i), i) == x
        }),
{
    reveal_with_fuel(chain_run, 2);
    reveal_with_fuel(run_list, 3);
    let mp = step_prepare(m, i);
    let sub = step_view(mp, i);
    let o = chain_run(m, seq![i], seq![TransformModel::Replace(x)], None);
    assert(seq![i].drop_first() =~= Seq::<IndexModel>::empty());
    assert(seq![TransformModel::Replace(x)].drop_first() =~= Seq::<TransformModel>::empty());
    assert(o.0 == step_write(mp, i, x));
    assert(o.1 == Some(sub));
    match i {
        IndexModel::At(n) => {
            let s = mp->Arr_0;
            assert(step_view(step_prepare(o.0, i), i) == s.update(n, x)[n]);
        },
        IndexModel::Key(k) => {
            let es = mp->Dict_0;
            let p = key_pos(es, k);
            let es2 = es.update(p, (es[p].0, x));
            crate::model::lemma_key_pos(es, k);
            crate::model::lemma_key_pos_keys_eq(es, es2, k);
        },
        IndexModel::Entry(k, d) => {
            lemma_entry_prepares_key(m, k, d);
            let es = mp->Dict_0;
            let p = key_pos(es, k);
            let es2 = es.update(p, (es[p].0, x));
            crate::model::lemma_key_pos(es, k);
            crate::model::lemma_key_pos_keys_eq(es, es2, k);
        },
        IndexModel::EntryMod(k, d, t) => {
            let es0 = m->Dict_0;
            if has_key(es0, k) {
                crate::model::lemma_key_pos(es0, k);
                let es = mp->Dict_0;
                crate::model::lemma_key_pos_keys_eq(es0, es, k);
                let p = key_pos(es, k);
                let es2 = es.update(p, (es[p].0, x));
                crate::model::lemma_key_pos_keys_eq(es, es2, k);
                let es3 = es2.update(p, (es2[p].0, apply_model(t, x, None).0));
                crate::model::lemma_key_pos_keys_eq(es2, es3, k);
            } else {
                let es = mp->Dict_0;
                assert(es[es0.len() as int].0 == k);
                assert forall|j: int| 0 <= j < es0.len() implies es[j].0 != k by {
                    assert(!(0 <= j < es0.len() && es0[j].0 == k));
                    assert(es[j] == es0[j]);
                }
                crate::value::lemma_key_pos_from_witness(es, k, es0.len() as int);
                let p = key_pos(es, k);
                let es2 = es.update(p, (es[p].0, x));
                crate::model::lemma_key_pos_keys_eq(es, es2, k);
                let es3 = es2.update(p, (es2[p].0, apply_model(t, x, None).0));
                crate::model::lemma_key_pos_keys_eq(es2, es3, k);
            }
        },
        IndexModel::Unwrap => {},
        IndexModel::SetInsert(e) => {
            let xs = x->IntSet_0;
            assert(crate::model::elem_insert(xs, e) == xs);
        },
        IndexModel::SetEntry(e) => {
            let s0 = mp->IntSet_0;
            let s1 = step_write(mp, i, x)->IntSet_0;
            if !crate::model::has_elem(s0, e) {
                assert(s1 == s0.push(e));
            }
        },
        IndexModel::SetKey(e) => {
            let s0 = mp->IntSet_0;
            let s1 = step_write(mp, i, x)->IntSet_0;
            if crate::model::has_elem(s0, e) {
                assert(crate::model::has_elem(s1, e));
            } else {
                assert(s1 == s0.push(e));
                assert(s1[s0.len() as int] == e);
                assert(crate::model::has_elem(s1, e));
            }
        },
        _ => {
            let s = mp->Arr_0;
            let (lo, hi) = range_bounds(i, s.len() as int);
            let xs = x->Arr_0;
            let s2 = s.subrange(0, lo) + xs + s.subrange(hi, s.len() as int);
            assert(s2.len() == s.len());
            assert(step_write(mp, i, x) == ValueModel::Arr(s2));
            assert(range_bounds(i, s2.len() as int) == (lo, hi));
            assert(step_view(step_prepare(o.0, i), i) == ValueModel::Arr(
                s2.subrange(lo, hi),
            ));
            assert(s2.subrange(lo, hi) =~= xs);
        },
    }
}

/// Whether `i` is a purely locating index: one whose resolution never
/// mutates the container on its own.  Insert-on-absent indices and the
/// set-element indices (which take the element out and reinsert it) are
/// not purely locating.
pub open spec fn plain_index(i: IndexModel) -> bool {
    match i {
        IndexModel::Entry(_, _) => false,
        IndexModel::EntryMod(_, _, _) => false,
        IndexModel::SetInsert(_) => false,
        IndexModel::SetEntry(_) => false,
        IndexModel::SetKey(_) => false,
        _ => true,
    }
}

/// Writing back exactly what a purely locating index views leaves the
/// container exactly as it was.
pub proof fn lemma_write_view_identity(m: ValueModel, i: IndexModel)
    requires
        step_resolves(m, i),
        plain_index(i),
    ensures
        step_write(m, i, step_view(m, i)) == m,
{
    match i {
        IndexModel::At(n) => {
            let s = m->Arr_0;
            assert(s.update(n, s[n]) =~= s);
        },
        IndexModel::Key(k) => {
            let es = m->Dict_0;
            crate::model::lemma_key_pos(es, k);
            let p = key_pos(es, k);
            assert(es.update(p, (es[p].0, es[p].1)) =~= es);
        },
        IndexModel::Unwrap => {},
        _ => {
            let s = m->Arr_0;
            let (lo, hi) = range_bounds(i, s.len() as int);
            assert(s.subrange(0, lo) + s.subrange(lo, hi) + s.subrange(hi, s.len() as int)
                =~= s);
        },
    }
}

/// A resolved location touched without change leaves the container exactly
/// as it was: failure to resolve and a transform without visible effect
/// are deliberately indistinguishable from the container alone.
pub proof fn lemma_touch_identity(m: ValueModel, i: IndexModel)
    requires
        step_resolves(m, i),
        plain_index(i),
    ensures
        chain_run(m, seq![i], seq![TransformModel::Touch], None) == (
            m,
            Some(ValueModel::Unit),
        ),
{
    reveal_with_fuel(chain_run, 2);
    reveal_with_fuel(run_list, 3);
    assert(seq![i].drop_first() =~= Seq::<IndexModel>::empty());
    assert(seq![TransformModel::Touch].drop_first() =~= Seq::<TransformModel>::empty());
    lemma_write_view_identity(m, i);
}

/// Short-circuit at any depth: when a chain of purely locating indices
/// reports failure, the container is exactly what it was — no partial
/// mutation survives, at any level.
pub proof fn lemma_failure_is_total_noop(
    m: ValueModel,
    is: Seq<IndexModel>,
    ts: Seq<TransformModel>,
    seed: Option<ValueModel>,
)
    requires
        forall|j: int| 0 <= j < is.len() ==> plain_index(#[trigger] is[j]),
        chain_run(m, is, ts, seed).1 is None,
    ensures
        chain_run(m, is, ts, seed).0 == m,
    decreases is.len(),
{
    if is.len() == 0 {
        if ts.len() > 0 {
            lemma_run_list_some(ts, m, seed);
        }
    } else {
        let i = is[0];
        if step_resolves(m, i) {
            let sub = step_view(m, i);
            assert forall|j: int| 0 <= j < is.drop_first().len() implies plain_index(
                #[trigger] is.drop_first()[j],
            ) by {
                assert(plain_index(is[j + 1]));
            }
            lemma_failure_is_total_noop(sub, is.drop_first(), ts, seed);
            lemma_write_view_identity(m, i);
        }
    }
}

/// Entry preparation makes the key present: the foundation of the
/// insert-on-absent accessors.
pub proof fn lemma_entry_prepares_key(m: ValueModel, k: crate::model::KeyModel, d: ValueModel)
    requires
        m is Dict,
    ensures
        has_key(step_prepare(m, IndexModel::Entry(k, d))->Dict_0, k),
        !has_key(m->Dict_0, k) ==> step_view(
            step_prepare(m, IndexModel::Entry(k, d)),
            IndexModel::Entry(k, d),
        ) == d,
{
    let es = m->Dict_0;
    if !has_key(es, k) {
        let es2 = es.push((k, d));
        assert(es2[es.len() as int].0 == k);
        assert forall|j: int| 0 <= j < es.len() implies es2[j].0 != k by {
            assert(!(0 <= j < es.len() && es[j].0 == k));
            assert(es2[j] == es[j]);
        }
        crate::value::lemma_key_pos_from_witness(es2, k, es.len() as int);
    }
}

/// A chain run factors through one located leaf: when the chain resolves,
/// the whole transform list folds against exactly that leaf — so every
/// transform of a batch runs at the one resolved location, left to right,
/// threading per `run_list` — and when it does not, the result is `None`
/// and no transform ran anywhere.
pub proof fn lemma_chain_run_locates(
    m: ValueModel,
    is: Seq<IndexModel>,
    ts: Seq<TransformModel>,
    seed: Option<ValueModel>,
)
    ensures
        crate::model::chain_resolves(m, is) ==> chain_run(m, is, ts, seed).1 == run_list(
            ts,
            crate::model::chain_locate(m, is),
            seed,
        ).1,
        !crate::model::chain_resolves(m, is) ==> chain_run(m, is, ts, seed).1 is None,
    decreases is.len(),
{
    if is.len() > 0 && step_resolves(m, is[0]) {
        let sub = step_view(step_prepare(m, is[0]), is[0]);
        lemma_chain_run_locates(sub, is.drop_first(), ts, seed);
    }
}

/// Appending one transform to a batch list runs the old list first and
/// hands its final result to the new transform: popping the last transform
/// therefore changes nothing about the steps before it.
pub proof fn lemma_run_list_snoc(
    ts: Seq<TransformModel>,
    t: TransformModel,
    m: ValueModel,
    seed: Option<ValueModel>,
)
    ensures
        run_list(ts.push(t), m, seed) == ({
            let o = run_list(ts, m, seed);
            let a = apply_model(t, o.0, o.1);
            (a.0, Some(a.1))
        }),
    decreases ts.len(),
{
    reveal_with_fuel(run_list, 3);
    if ts.len() == 0 {
        assert(ts.push(t)[0] == t);
        assert(ts.push(t).drop_first() =~= Seq::<TransformModel>::empty());
    } else {
        let a0 = apply_model(ts[0], m, seed);
        assert(ts.push(t).drop_first() =~= ts.drop_first().push(t));
        lemma_run_list_snoc(ts.drop_first(), t, a0.0, Some(a0.1));
    }
}

/// A batch fold can be split at any point: the suffix starts from the
/// prefix's final state and threads the prefix's final result.  This is
/// the threading law: the transform at position `k` receives exactly what
/// the first `k` transforms produced.
pub proof fn lemma_run_list_split(
    ts: Seq<TransformModel>,
    k: int,
    m: ValueModel,
    seed: Option<ValueModel>,
)
    requires
        0 <= k <= ts.len(),
    ensures
        run_list(ts, m, seed) == ({
            let o = run_list(ts.take(k), m, seed);
            run_list(ts.skip(k), o.0, o.1)
        }),
    decreases k,
{
    reveal_with_fuel(run_list, 3);
    if k == 0 {
        assert(ts.take(0) =~= Seq::<TransformModel>::empty());
        assert(ts.skip(0) =~= ts);
    } else {
        let a0 = apply_model(ts[0], m, seed);
        assert(ts.take(k)[0] == ts[0]);
        assert(ts.take(k).drop_first() =~= ts.drop_first().take(k - 1));
        assert(ts.skip(k) =~= ts.drop_first().skip(k - 1));
        lemma_run_list_split(ts.drop_first(), k - 1, a0.0, Some(a0.1));
    }
}

/// A nonempty fold always produces a result: so every transform after the
/// first receives `Some(..)` of its predecessor's result, and only the
/// first ever sees the bare seed.
pub proof fn lemma_run_list_some(ts: Seq<TransformModel>, m: ValueModel, seed: Option<ValueModel>)
    requires
        ts.len() > 0,
    ensures
        run_list(ts, m, seed).1 is Some,
    decreases ts.len(),
{
    reveal_with_fuel(run_list, 3);
    let a0 = apply_model(ts[0], m, seed);
    if ts.len() > 1 {
        lemma_run_list_some(ts.drop_first(), a0.0, Some(a0.1));
    }
}

/// Detach/attach preserves the chain.  `detach` hands out a suffix with
/// the same index models the path carried, and `attach_to` anchors exactly
/// that suffix at the new root; so the reattached path resolves exactly as
/// the same indices composed on the new root directly — the run depends on
/// nothing but the root's data and the index chain, never on the detach
/// marker.  A path still detached never resolves at all.
pub proof fn lemma_detach_attach_preserves_chain(
    p: Seq<IndexModel>,
    c: int,
    w: ValueModel,
    ts: Seq<TransformModel>,
    seed: Option<ValueModel>,
)
    requires
        0 <= c <= p.len(),
    ensures
        ({
            // the detached suffix, as `AT::detach` ensures it, reattached
            // to `w`, as `Attach::attach_to` ensures it
            let reattached = (Some(w), p.skip(c), 0int);
            &&& AT::run_m(reattached, ts, seed).1 == chain_run(w, p.skip(c), ts, seed).1
            &&& AT::run_m(reattached, ts, seed).0.0 == Some(chain_run(w, p.skip(c), ts, seed).0)
            &&& forall|c2: int| AT::run_m((Some(w), p.skip(c), c2), ts, seed).1 == AT::run_m(
                reattached,
                ts,
                seed,
            ).1
            &&& AT::run_m((None::<ValueModel>, p.skip(c), 0int), ts, seed).1 is None
        }),
{
}

} // verus!
