//! Preservation of well-formedness: resolving any chain and running any
//! transforms keeps every associative container's keys pairwise distinct
//! and every set's elements pairwise distinct, at every nesting level.

use vstd::prelude::*;

use crate::model::{
    apply_model, chain_run, distinct_elems, distinct_keys, elem_insert, elem_pos, elem_remove,
    has_elem, has_key, key_pos, lemma_key_pos, lemma_wf_model_entries, lemma_wf_model_seq,
    range_bounds, run_list, step_prepare, step_resolves, step_view, step_write, wf_index,
    wf_model, wf_model_entries, wf_model_seq, wf_opt, wf_transform, IndexModel, TransformModel,
    ValueModel,
};

verus! {

broadcast use vstd::seq::group_seq_axioms;

/// Well-formedness of every transform of a list.
pub open spec fn wf_tlist(ts: Seq<TransformModel>) -> bool {
    forall|j: int| 0 <= j < ts.len() ==> wf_transform(#[trigger] ts[j])
}

/// Well-formedness of every index of a path.
pub open spec fn wf_path(is: Seq<IndexModel>) -> bool {
    forall|j: int| 0 <= j < is.len() ==> wf_index(#[trigger] is[j])
}

/// One transform applied to a well-formed value yields a well-formed value
/// and a well-formed result.
pub proof fn lemma_apply_model_wf(t: TransformModel, m: ValueModel, prev: Option<ValueModel>)
    requires
        wf_transform(t),
        wf_model(m),
        wf_opt(prev),
    ensures
        wf_model(apply_model(t, m, prev).0),
        wf_model(apply_model(t, m, prev).1),
{
    match t {
        TransformModel::SetFirst(n) => {
            if m is Arr {
                let s = m->Arr_0;
                lemma_wf_model_seq(s);
                if s.len() > 0 {
                    let s2 = s.update(0, ValueModel::Int(n as int));
                    lemma_wf_model_seq(s2);
                }
            }
        },
        TransformModel::PushInt(n) => {
            if m is Arr {
                let s = m->Arr_0;
                lemma_wf_model_seq(s);
                lemma_wf_model_seq(s.push(ValueModel::Int(n as int)));
            }
        },
        TransformModel::Accum(n) => {
            if m is Arr {
                let s = m->Arr_0;
                lemma_wf_model_seq(s);
                lemma_wf_model_seq(s.push(ValueModel::Int(n as int)));
            }
        },
        TransformModel::LogPrev => {
            if m is Arr {
                let s = m->Arr_0;
                let item = match prev {
                    Some(v) => v,
                    None => ValueModel::Unit,
                };
                lemma_wf_model_seq(s);
                lemma_wf_model_seq(s.push(item));
            }
        },
        _ => {},
    }
}

/// A whole transform list run against a well-formed value yields a
/// well-formed value and, when there is one, a well-formed result.
pub proof fn lemma_run_list_wf(
    ts: Seq<TransformModel>,
    m: ValueModel,
    prev: Option<ValueModel>,
)
    requires
        wf_tlist(ts),
        wf_model(m),
        wf_opt(prev),
    ensures
        wf_model(run_list(ts, m, prev).0),
        wf_opt(run_list(ts, m, prev).1),
    decreases ts.len(),
{
    if ts.len() > 0 {
        lemma_apply_model_wf(ts[0], m, prev);
        let a0 = apply_model(ts[0], m, prev);
        assert forall|j: int| 0 <= j < ts.drop_first().len() implies wf_transform(
            #[trigger] ts.drop_first()[j],
        ) by {
            assert(wf_transform(ts[j + 1]));
        }
        lemma_run_list_wf(ts.drop_first(), a0.0, Some(a0.1));
    }
}

/// Taking one occurrence out of a duplicate-free sequence keeps it
/// duplicate-free and takes the element out entirely.
proof fn lemma_elem_remove_distinct(s: Seq<int>, x: int)
    requires
        distinct_elems(s),
    ensures
        distinct_elems(elem_remove(s, x)),
        !has_elem(elem_remove(s, x), x),
{
    if has_elem(s, x) {
        let p = elem_pos(s, x);
        lemma_elem_pos_found(s, x);
        let s2 = s.remove(p);
        s.remove_ensures(p);
        assert forall|j1: int, j2: int| 0 <= j1 < j2 < s2.len() implies #[trigger] s2[j1]
            != #[trigger] s2[j2] by {
            let i1 = if j1 < p {
                j1
            } else {
                j1 + 1
            };
            let i2 = if j2 < p {
                j2
            } else {
                j2 + 1
            };
            assert(s2[j1] == s[i1] && s2[j2] == s[i2]);
        }
        assert forall|j: int| 0 <= j < s2.len() implies #[trigger] s2[j] != x by {
            let i = if j < p {
                j
            } else {
                j + 1
            };
            assert(s2[j] == s[i]);
            if i != p {
                assert(s[i] != s[p] || !(0 <= i < s.len()));
            }
        }
    }
}

/// `elem_pos` finds an occurrence when one exists.
proof fn lemma_elem_pos_found(s: Seq<int>, x: int)
    requires
        has_elem(s, x),
    ensures
        0 <= elem_pos(s, x) < s.len(),
        s[elem_pos(s, x)] == x,
    decreases s.len(),
{
    if s.len() > 0 && s[0] != x {
        assert(has_elem(s.drop_first(), x)) by {
            let j = choose|j: int| 0 <= j < s.len() && s[j] == x;
            assert(s.drop_first()[j - 1] == x);
        }
        lemma_elem_pos_found(s.drop_first(), x);
    }
}

/// Inserting into a duplicate-free sequence keeps it duplicate-free.
proof fn lemma_elem_insert_distinct(s: Seq<int>, x: int)
    requires
        distinct_elems(s),
    ensures
        distinct_elems(elem_insert(s, x)),
{
    if !has_elem(s, x) {
        let s2 = s.push(x);
        assert forall|j1: int, j2: int| 0 <= j1 < j2 < s2.len() implies #[trigger] s2[j1]
            != #[trigger] s2[j2] by {
            if j2 == s.len() {
                assert(s2[j1] == s[j1]);
                assert(!(0 <= j1 < s.len() && s[j1] == x));
            }
        }
    }
}

/// One resolution step out of a well-formed container: the prepared
/// container is well-formed, the viewed sub-value is well-formed, and
/// writing any well-formed sub-value back keeps the container well-formed.
pub proof fn lemma_step_wf(m: ValueModel, i: IndexModel, sub: ValueModel)
    requires
        wf_model(m),
        wf_index(i),
        step_resolves(m, i),
    ensures
        wf_model(step_prepare(m, i)),
        wf_model(step_view(step_prepare(m, i), i)),
        wf_model(sub) ==> wf_model(step_write(step_prepare(m, i), i, sub)),
{
    match i {
        IndexModel::At(n) => {
            let s = m->Arr_0;
            lemma_wf_model_seq(s);
            if wf_model(sub) {
                lemma_wf_model_seq(s.update(n, sub));
            }
        },
        IndexModel::Key(k) => {
            let es = m->Dict_0;
            lemma_key_pos(es, k);
            lemma_wf_model_entries(es);
            let p = key_pos(es, k);
            if wf_model(sub) {
                lemma_dict_update_wf(es, p, sub);
            }
        },
        IndexModel::Entry(k, d) => {
            let es = m->Dict_0;
            lemma_wf_model_entries(es);
            let esp = step_prepare(m, i)->Dict_0;
            if !has_key(es, k) {
                lemma_dict_push_fresh_wf(es, k, d);
            }
            crate::laws::lemma_entry_prepares_key(m, k, d);
            lemma_key_pos(esp, k);
            lemma_wf_model_entries(esp);
            let p = key_pos(esp, k);
            if wf_model(sub) {
                lemma_dict_update_wf(esp, p, sub);
            }
        },
        IndexModel::EntryMod(k, d, t) => {
            let es = m->Dict_0;
            lemma_wf_model_entries(es);
            if has_key(es, k) {
                lemma_key_pos(es, k);
                let p = key_pos(es, k);
                lemma_apply_model_wf(t, es[p].1, None);
                lemma_dict_update_wf(es, p, apply_model(t, es[p].1, None).0);
            } else {
                lemma_dict_push_fresh_wf(es, k, d);
            }
            let esp = step_prepare(m, i)->Dict_0;
            assert(has_key(esp, k)) by {
                if has_key(es, k) {
                    let p = key_pos(es, k);
                    lemma_key_pos(es, k);
                    assert(esp[p].0 == k);
                } else {
                    assert(esp[es.len() as int].0 == k);
                }
            }
            lemma_key_pos(esp, k);
            lemma_wf_model_entries(esp);
            let p2 = key_pos(esp, k);
            if wf_model(sub) {
                lemma_dict_update_wf(esp, p2, sub);
            }
        },
        IndexModel::Unwrap => {},
        IndexModel::SetInsert(x) => {
            let s = m->IntSet_0;
            lemma_elem_insert_distinct(s, x);
        },
        IndexModel::SetEntry(x) => {
            let s = m->IntSet_0;
            lemma_elem_remove_distinct(s, x);
            if sub is Int {
                lemma_elem_insert_distinct(elem_remove(s, x), sub->Int_0);
            }
        },
        IndexModel::SetKey(x) => {
            let s = m->IntSet_0;
            lemma_elem_remove_distinct(s, x);
            if sub is Int {
                lemma_elem_insert_distinct(elem_remove(s, x), sub->Int_0);
            }
        },
        _ => {
            let s = m->Arr_0;
            let (lo, hi) = range_bounds(i, s.len() as int);
            lemma_wf_model_seq(s);
            lemma_wf_model_seq(s.subrange(lo, hi));
            if wf_model(sub) {
                let mid = match sub {
                    ValueModel::Arr(ns) => ns,
                    _ => seq![sub],
                };
                let s2 = s.subrange(0, lo) + mid + s.subrange(hi, s.len() as int);
                if sub is Arr {
                    lemma_wf_model_seq(sub->Arr_0);
                }
                assert forall|j: int| 0 <= j < s2.len() implies wf_model(#[trigger] s2[j]) by {
                    if j < lo {
                        assert(s2[j] == s[j]);
                    } else if j < lo + mid.len() {
                        assert(s2[j] == mid[j - lo]);
                    } else {
                        assert(s2[j] == s[j - lo - mid.len() + hi]);
                    }
                }
                lemma_wf_model_seq(s2);
            }
        },
    }
}

/// Updating one value of a well-formed entry sequence with a well-formed
/// value keeps it well-formed.
proof fn lemma_dict_update_wf(
    es: Seq<(crate::model::KeyModel, ValueModel)>,
    p: int,
    sub: ValueModel,
)
    requires
        0 <= p < es.len(),
        distinct_keys(es),
        wf_model_entries(es),
        wf_model(sub),
    ensures
        distinct_keys(es.update(p, (es[p].0, sub))),
        wf_model_entries(es.update(p, (es[p].0, sub))),
{
    let es2 = es.update(p, (es[p].0, sub));
    assert forall|j1: int, j2: int| 0 <= j1 < j2 < es2.len() implies (#[trigger] es2[j1]).0
        != (#[trigger] es2[j2]).0 by {
        assert(es2[j1].0 == es[j1].0 && es2[j2].0 == es[j2].0);
    }
    lemma_wf_model_entries(es);
    lemma_wf_model_entries(es2);
}

/// Appending an entry whose key is absent, with a well-formed value, keeps
/// an entry sequence well-formed.
proof fn lemma_dict_push_fresh_wf(
    es: Seq<(crate::model::KeyModel, ValueModel)>,
    k: crate::model::KeyModel,
    d: ValueModel,
)
    requires
        distinct_keys(es),
        wf_model_entries(es),
        !has_key(es, k),
        wf_model(d),
    ensures
        distinct_keys(es.push((k, d))),
        wf_model_entries(es.push((k, d))),
{
    let es2 = es.push((k, d));
    assert forall|j1: int, j2: int| 0 <= j1 < j2 < es2.len() implies (#[trigger] es2[j1]).0
        != (#[trigger] es2[j2]).0 by {
        if j2 == es.len() {
            assert(es2[j1].0 == es[j1].0);
            assert(!(0 <= j1 < es.len() && es[j1].0 == k));
        } else {
            assert(es2[j1].0 == es[j1].0 && es2[j2].0 == es[j2].0);
        }
    }
    lemma_wf_model_entries(es);
    lemma_wf_model_entries(es2);
}

/// The whole chain preserves well-formedness: resolving any path through a
/// well-formed value and running any well-formed transforms yields a
/// well-formed value, and a well-formed result when there is one.
pub proof fn lemma_chain_run_wf(
    m: ValueModel,
    is: Seq<IndexModel>,
    ts: Seq<TransformModel>,
    seed: Option<ValueModel>,
)
    requires
        wf_model(m),
        wf_path(is),
        wf_tlist(ts),
        wf_opt(seed),
    ensures
        wf_model(chain_run(m, is, ts, seed).0),
        wf_opt(chain_run(m, is, ts, seed).1),
    decreases is.len(),
{
    if is.len() == 0 {
        lemma_run_list_wf(ts, m, seed);
    } else {
        let i = is[0];
        if step_resolves(m, i) {
            let mp = step_prepare(m, i);
            let v = step_view(mp, i);
            lemma_step_wf(m, i, ValueModel::Unit);
            assert forall|j: int| 0 <= j < is.drop_first().len() implies wf_index(
                #[trigger] is.drop_first()[j],
            ) by {
                assert(wf_index(is[j + 1]));
            }
            lemma_chain_run_wf(v, is.drop_first(), ts, seed);
            let (sub2, _r) = chain_run(v, is.drop_first(), ts, seed);
            lemma_step_wf(m, i, sub2);
        }
    }
}

} // verus!
