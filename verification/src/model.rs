//! The mathematical model of the access protocol.
//!
//! Every executable type of the library has a ghost counterpart here, and the
//! whole resolution semantics — what an index denotes in a container, what a
//! transform does to a located value, how a chain of indices is resolved in a
//! single pass with short-circuit on failure — is defined over these ghost
//! types.  The contracts of the executable code are stated in terms of these
//! definitions.

use vstd::prelude::*;

verus! {

broadcast use vstd::seq::group_seq_axioms;

/// Ghost counterpart of [`crate::value::Key`].
pub enum KeyModel {
    Int(int),
    Str(Seq<char>),
}

/// Ghost counterpart of [`crate::value::Value`].
pub enum ValueModel {
    /// The unit value; also the result of transforms that return nothing.
    Unit,
    /// An integer leaf.
    Int(int),
    /// A text leaf.
    Str(Seq<char>),
    /// A sequence container.
    Arr(Seq<ValueModel>),
    /// An associative container: entries in order; resolution takes the
    /// first entry matching a key.
    Dict(Seq<(KeyModel, ValueModel)>),
    /// An optional value.
    Opt(Option<Box<ValueModel>>),
    /// A fallible value: success holds the viewed value.
    Res(Result<Box<ValueModel>, Box<ValueModel>>),
    /// A set of integer elements, kept in insertion order; resolution
    /// takes the first occurrence.
    IntSet(Seq<int>),
}

/// Ghost counterpart of [`crate::value::Index`].
pub enum IndexModel {
    At(int),
    Range(int, int),
    RangeFrom(int),
    RangeTo(int),
    RangeFull,
    RangeIncl(int, int),
    RangeToIncl(int),
    Key(KeyModel),
    Entry(KeyModel, ValueModel),
    EntryMod(KeyModel, ValueModel, TransformModel),
    Unwrap,
    SetInsert(int),
    SetEntry(int),
    SetKey(int),
}

/// Ghost counterpart of [`crate::value::Transform`].
pub enum TransformModel {
    Replace(ValueModel),
    Touch,
    AddInt(int),
    SetFirst(int),
    PushInt(int),
    Accum(int),
    LogPrev,
    Fetch,
}

// ---------------------------------------------------------------------------
// Associative-container helpers.
// ---------------------------------------------------------------------------

/// Whether some entry of `es` has key `k`.
pub open spec fn has_key(es: Seq<(KeyModel, ValueModel)>, k: KeyModel) -> bool {
    exists|j: int| 0 <= j < es.len() && es[j].0 == k
}

/// The position of the first entry of `es` whose key is `k`.
pub open spec fn key_pos(es: Seq<(KeyModel, ValueModel)>, k: KeyModel) -> int
    decreases es.len(),
{
    if es.len() == 0 {
        0
    } else if es[0].0 == k {
        0
    } else {
        1 + key_pos(es.drop_first(), k)
    }
}

/// `key_pos` finds the first matching entry.
pub proof fn lemma_key_pos(es: Seq<(KeyModel, ValueModel)>, k: KeyModel)
    requires
        has_key(es, k),
    ensures
        0 <= key_pos(es, k) < es.len(),
        es[key_pos(es, k)].0 == k,
        forall|j: int| 0 <= j < key_pos(es, k) ==> es[j].0 != k,
    decreases es.len(),
{
    if es.len() > 0 && es[0].0 != k {
        assert(has_key(es.drop_first(), k)) by {
            let j = choose|j: int| 0 <= j < es.len() && es[j].0 == k;
            assert(es.drop_first()[j - 1].0 == k);
        }
        lemma_key_pos(es.drop_first(), k);
        assert forall|j: int| 0 <= j < key_pos(es, k) implies es[j].0 != k by {
            if j > 0 {
                assert(es.drop_first()[j - 1].0 != k);
            }
        }
    }
}

/// `key_pos` and `has_key` depend only on the keys of the entries.
pub proof fn lemma_key_pos_keys_eq(
    es1: Seq<(KeyModel, ValueModel)>,
    es2: Seq<(KeyModel, ValueModel)>,
    k: KeyModel,
)
    requires
        es1.len() == es2.len(),
        forall|j: int| 0 <= j < es1.len() ==> es1[j].0 == es2[j].0,
    ensures
        has_key(es1, k) == has_key(es2, k),
        key_pos(es1, k) == key_pos(es2, k),
    decreases es1.len(),
{
    if has_key(es1, k) {
        let j = choose|j: int| 0 <= j < es1.len() && es1[j].0 == k;
        assert(es2[j].0 == k);
    }
    if has_key(es2, k) {
        let j = choose|j: int| 0 <= j < es2.len() && es2[j].0 == k;
        assert(es1[j].0 == k);
    }
    if es1.len() > 0 && es1[0].0 != k {
        assert forall|j: int| 0 <= j < es1.drop_first().len() implies es1.drop_first()[j].0
            == es2.drop_first()[j].0 by {
            assert(es1[j + 1].0 == es2[j + 1].0);
        }
        lemma_key_pos_keys_eq(es1.drop_first(), es2.drop_first(), k);
    }
}

/// Whether some position of `s` holds the element `x`.
pub open spec fn has_elem(s: Seq<int>, x: int) -> bool {
    exists|j: int| 0 <= j < s.len() && s[j] == x
}

/// The position of the first occurrence of `x` in `s`.
pub open spec fn elem_pos(s: Seq<int>, x: int) -> int
    decreases s.len(),
{
    if s.len() == 0 {
        0
    } else if s[0] == x {
        0
    } else {
        1 + elem_pos(s.drop_first(), x)
    }
}

/// `s` with the first occurrence of `x` removed, if there is one.
pub open spec fn elem_remove(s: Seq<int>, x: int) -> Seq<int> {
    if has_elem(s, x) {
        s.remove(elem_pos(s, x))
    } else {
        s
    }
}

/// `s` with `x` appended, unless `x` is already an element.
pub open spec fn elem_insert(s: Seq<int>, x: int) -> Seq<int> {
    if has_elem(s, x) {
        s
    } else {
        s.push(x)
    }
}

// ---------------------------------------------------------------------------
// Range indices over sequence containers.
// ---------------------------------------------------------------------------

/// Whether `i` is one of the range-shaped indices.
pub open spec fn is_range_index(i: IndexModel) -> bool {
    match i {
        IndexModel::Range(_, _) => true,
        IndexModel::RangeFrom(_) => true,
        IndexModel::RangeTo(_) => true,
        IndexModel::RangeFull => true,
        IndexModel::RangeIncl(_, _) => true,
        IndexModel::RangeToIncl(_) => true,
        _ => false,
    }
}

/// Whether the range index `i` resolves in a sequence of length `len`.
///
/// Inclusive forms require the inclusive end to be a valid element position;
/// half-open forms only require the end to not exceed the length.
pub open spec fn range_ok(i: IndexModel, len: int) -> bool {
    match i {
        IndexModel::Range(a, b) => 0 <= a <= b <= len,
        IndexModel::RangeFrom(a) => 0 <= a <= len,
        IndexModel::RangeTo(b) => 0 <= b <= len,
        IndexModel::RangeFull => true,
        IndexModel::RangeIncl(a, b) => 0 <= a && 0 <= b < len && a <= b + 1,
        IndexModel::RangeToIncl(b) => 0 <= b < len,
        _ => false,
    }
}

/// The half-open bounds `[lo, hi)` denoted by the range index `i` in a
/// sequence of length `len`.  Meaningful only when `range_ok` holds.
pub open spec fn range_bounds(i: IndexModel, len: int) -> (int, int) {
    match i {
        IndexModel::Range(a, b) => (a, b),
        IndexModel::RangeFrom(a) => (a, len),
        IndexModel::RangeTo(b) => (0, b),
        IndexModel::RangeFull => (0, len),
        IndexModel::RangeIncl(a, b) => (a, b + 1),
        IndexModel::RangeToIncl(b) => (0, b + 1),
        _ => (0, 0),
    }
}

// ---------------------------------------------------------------------------
// Single-step resolution: one index against one container.
// ---------------------------------------------------------------------------

/// Whether index `i` resolves in container `m`.
pub open spec fn step_resolves(m: ValueModel, i: IndexModel) -> bool {
    match i {
        IndexModel::At(n) => match m {
            ValueModel::Arr(s) => 0 <= n < s.len(),
            _ => false,
        },
        IndexModel::Key(k) => match m {
            ValueModel::Dict(es) => has_key(es, k),
            _ => false,
        },
        IndexModel::Entry(_, _) => m is Dict,
        IndexModel::EntryMod(_, _, _) => m is Dict,
        IndexModel::Unwrap => match m {
            ValueModel::Opt(o) => o is Some,
            ValueModel::Res(r) => r is Ok,
            _ => false,
        },
        IndexModel::SetInsert(_) => m is IntSet,
        IndexModel::SetEntry(_) => m is IntSet,
        IndexModel::SetKey(x) => match m {
            ValueModel::IntSet(s) => has_elem(s, x),
            _ => false,
        },
        _ => match m {
            ValueModel::Arr(s) => range_ok(i, s.len() as int),
            _ => false,
        },
    }
}

/// The container after the resolver's own structural preparation, before any
/// descent: an entry index inserts its default when the key is absent, an
/// entry-and-modify index additionally runs its mutator on a present value,
/// and a set-element index takes the element out; every other index leaves
/// the container as it is.
pub open spec fn step_prepare(m: ValueModel, i: IndexModel) -> ValueModel {
    match (i, m) {
        (IndexModel::Entry(k, d), ValueModel::Dict(es)) => {
            if has_key(es, k) {
                ValueModel::Dict(es)
            } else {
                ValueModel::Dict(es.push((k, d)))
            }
        },
        (IndexModel::EntryMod(k, d, t), ValueModel::Dict(es)) => {
            if has_key(es, k) {
                let p = key_pos(es, k);
                ValueModel::Dict(es.update(p, (es[p].0, apply_model(t, es[p].1, None).0)))
            } else {
                ValueModel::Dict(es.push((k, d)))
            }
        },
        (IndexModel::SetInsert(x), ValueModel::IntSet(s)) => ValueModel::IntSet(
            elem_insert(s, x),
        ),
        (IndexModel::SetEntry(x), ValueModel::IntSet(s)) => ValueModel::IntSet(
            elem_remove(s, x),
        ),
        (IndexModel::SetKey(x), ValueModel::IntSet(s)) => ValueModel::IntSet(elem_remove(s, x)),
        (_, m) => m,
    }
}

/// The sub-value denoted by `i` in the prepared container `m`.
/// Meaningful only when `step_resolves` held of the unprepared container.
pub open spec fn step_view(m: ValueModel, i: IndexModel) -> ValueModel {
    match i {
        IndexModel::At(n) => match m {
            ValueModel::Arr(s) => s[n],
            _ => ValueModel::Unit,
        },
        IndexModel::Key(k) => match m {
            ValueModel::Dict(es) => es[key_pos(es, k)].1,
            _ => ValueModel::Unit,
        },
        IndexModel::Entry(k, _) => match m {
            ValueModel::Dict(es) => es[key_pos(es, k)].1,
            _ => ValueModel::Unit,
        },
        IndexModel::EntryMod(k, _, _) => match m {
            ValueModel::Dict(es) => es[key_pos(es, k)].1,
            _ => ValueModel::Unit,
        },
        IndexModel::Unwrap => match m {
            ValueModel::Opt(o) => match o {
                Some(b) => *b,
                None => ValueModel::Unit,
            },
            ValueModel::Res(r) => match r {
                Ok(b) => *b,
                _ => ValueModel::Unit,
            },
            _ => ValueModel::Unit,
        },
        IndexModel::SetInsert(_) => m,
        IndexModel::SetEntry(x) => ValueModel::Int(x),
        IndexModel::SetKey(x) => ValueModel::Int(x),
        _ => match m {
            ValueModel::Arr(s) => {
                let (lo, hi) = range_bounds(i, s.len() as int);
                ValueModel::Arr(s.subrange(lo, hi))
            },
            _ => ValueModel::Unit,
        },
    }
}

/// The prepared container `m` with the location denoted by `i` replaced by
/// `sub`.  For range indices the denoted segment is spliced out and replaced
/// by the contents of `sub` (a non-sequence replacement becomes a single
/// element).  A set-element location reinserts the transformed element,
/// which may re-key it; what the transform made non-integral is dropped
/// from the set.  Meaningful only when `step_resolves` held.
pub open spec fn step_write(m: ValueModel, i: IndexModel, sub: ValueModel) -> ValueModel {
    match i {
        IndexModel::At(n) => match m {
            ValueModel::Arr(s) => ValueModel::Arr(s.update(n, sub)),
            _ => m,
        },
        IndexModel::Key(k) => match m {
            ValueModel::Dict(es) => {
                let p = key_pos(es, k);
                ValueModel::Dict(es.update(p, (es[p].0, sub)))
            },
            _ => m,
        },
        IndexModel::Entry(k, _) => match m {
            ValueModel::Dict(es) => {
                let p = key_pos(es, k);
                ValueModel::Dict(es.update(p, (es[p].0, sub)))
            },
            _ => m,
        },
        IndexModel::EntryMod(k, _, _) => match m {
            ValueModel::Dict(es) => {
                let p = key_pos(es, k);
                ValueModel::Dict(es.update(p, (es[p].0, sub)))
            },
            _ => m,
        },
        IndexModel::Unwrap => match m {
            ValueModel::Opt(_) => ValueModel::Opt(Some(Box::new(sub))),
            ValueModel::Res(_) => ValueModel::Res(Ok(Box::new(sub))),
            _ => m,
        },
        IndexModel::SetInsert(_) => sub,
        IndexModel::SetEntry(_) => match m {
            ValueModel::IntSet(s) => match sub {
                ValueModel::Int(y) => ValueModel::IntSet(elem_insert(s, y)),
                _ => ValueModel::IntSet(s),
            },
            _ => m,
        },
        IndexModel::SetKey(_) => match m {
            ValueModel::IntSet(s) => match sub {
                ValueModel::Int(y) => ValueModel::IntSet(elem_insert(s, y)),
                _ => ValueModel::IntSet(s),
            },
            _ => m,
        },
        _ => match m {
            ValueModel::Arr(s) => {
                let (lo, hi) = range_bounds(i, s.len() as int);
                let mid = match sub {
                    ValueModel::Arr(ns) => ns,
                    _ => seq![sub],
                };
                ValueModel::Arr(s.subrange(0, lo) + mid + s.subrange(hi, s.len() as int))
            },
            _ => m,
        },
    }
}

// ---------------------------------------------------------------------------
// Transforms.
// ---------------------------------------------------------------------------

/// Clamped integer addition: the sum when it fits in the signed 64-bit range,
/// the left operand unchanged otherwise.
pub open spec fn add_in_range(x: int, d: int) -> int {
    if i64::MIN <= x + d <= i64::MAX {
        x + d
    } else {
        x
    }
}

/// What a transform does to a located value: the new value at the location
/// and the transform's result.  `prev` is the previous result threaded by a
/// batch; a single access passes `None`.
pub open spec fn apply_model(t: TransformModel, m: ValueModel, prev: Option<ValueModel>) -> (
    ValueModel,
    ValueModel,
) {
    match t {
        TransformModel::Replace(x) => (x, m),
        TransformModel::Touch => (m, ValueModel::Unit),
        TransformModel::AddInt(d) => match m {
            ValueModel::Int(x) => (ValueModel::Int(add_in_range(x, d)), ValueModel::Unit),
            _ => (m, ValueModel::Unit),
        },
        TransformModel::SetFirst(n) => match m {
            ValueModel::Arr(s) => {
                if s.len() > 0 {
                    (ValueModel::Arr(s.update(0, ValueModel::Int(n))), s[0])
                } else {
                    (m, ValueModel::Unit)
                }
            },
            _ => (m, ValueModel::Unit),
        },
        TransformModel::PushInt(n) => match m {
            ValueModel::Arr(s) => {
                let s2 = s.push(ValueModel::Int(n));
                (ValueModel::Arr(s2), s2[0])
            },
            _ => (m, ValueModel::Unit),
        },
        TransformModel::Accum(n) => {
            let p: int = match prev {
                Some(ValueModel::Int(q)) => q,
                _ => 0,
            };
            let r = ValueModel::Int(add_in_range(n, p));
            match m {
                ValueModel::Arr(s) => (ValueModel::Arr(s.push(ValueModel::Int(n))), r),
                _ => (m, r),
            }
        },
        TransformModel::Fetch => (m, m),
        TransformModel::LogPrev => {
            let item = match prev {
                Some(v) => v,
                None => ValueModel::Unit,
            };
            match m {
                ValueModel::Arr(s) => {
                    let r = ValueModel::Int(if s.len() <= i64::MAX { s.len() as int } else { i64::MAX as int });
                    (ValueModel::Arr(s.push(item)), r)
                },
                _ => (m, ValueModel::Unit),
            }
        },
    }
}

/// Runs a list of transforms against one located value, left to right,
/// threading each transform's result into the next as `Some(..)`.
/// An empty list leaves the value alone and hands `prev` back.
pub open spec fn run_list(
    ts: Seq<TransformModel>,
    m: ValueModel,
    prev: Option<ValueModel>,
) -> (ValueModel, Option<ValueModel>)
    decreases ts.len(),
{
    if ts.len() == 0 {
        (m, prev)
    } else {
        let (m1, r1) = apply_model(ts[0], m, prev);
        run_list(ts.drop_first(), m1, Some(r1))
    }
}

/// Whether the whole index chain resolves in `m`, level by level.
pub open spec fn chain_resolves(m: ValueModel, is: Seq<IndexModel>) -> bool
    decreases is.len(),
{
    is.len() == 0 || (step_resolves(m, is[0]) && chain_resolves(
        step_view(step_prepare(m, is[0]), is[0]),
        is.drop_first(),
    ))
}

/// The one located leaf value at the end of the chain, after each level's
/// preparation.  Meaningful only when `chain_resolves` holds.
pub open spec fn chain_locate(m: ValueModel, is: Seq<IndexModel>) -> ValueModel
    decreases is.len(),
{
    if is.len() == 0 {
        m
    } else {
        chain_locate(step_view(step_prepare(m, is[0]), is[0]), is.drop_first())
    }
}

/// Resolves a whole index chain in one pass and runs the transform list at
/// the located leaf.  The moment one index fails to resolve, the chain
/// reports failure and no level below runs anything; levels above keep only
/// what their own preparation (an entry insert) already did.
pub open spec fn chain_run(
    m: ValueModel,
    is: Seq<IndexModel>,
    ts: Seq<TransformModel>,
    seed: Option<ValueModel>,
) -> (ValueModel, Option<ValueModel>)
    decreases is.len(),
{
    if is.len() == 0 {
        run_list(ts, m, seed)
    } else {
        let i = is[0];
        if !step_resolves(m, i) {
            (m, None)
        } else {
            let mp = step_prepare(m, i);
            let sub = step_view(mp, i);
            let (sub2, r) = chain_run(sub, is.drop_first(), ts, seed);
            (step_write(mp, i, sub2), r)
        }
    }
}

// ---------------------------------------------------------------------------
// Well-formedness of the data model.
// ---------------------------------------------------------------------------

/// Whether the keys of an entry sequence are pairwise distinct.
pub open spec fn distinct_keys(es: Seq<(KeyModel, ValueModel)>) -> bool {
    forall|j1: int, j2: int| 0 <= j1 < j2 < es.len() ==> (#[trigger] es[j1]).0 != (
    #[trigger] es[j2]).0
}

/// Whether the elements of an integer sequence are pairwise distinct.
pub open spec fn distinct_elems(s: Seq<int>) -> bool {
    forall|j1: int, j2: int| 0 <= j1 < j2 < s.len() ==> #[trigger] s[j1] != #[trigger] s[j2]
}

/// Well-formedness of a value: every associative container in it has
/// pairwise distinct keys, and every set pairwise distinct elements.
pub open spec fn wf_model(m: ValueModel) -> bool
    decreases m,
{
    match m {
        ValueModel::Unit => true,
        ValueModel::Int(_) => true,
        ValueModel::Str(_) => true,
        ValueModel::Arr(s) => wf_model_seq(s),
        ValueModel::Dict(es) => distinct_keys(es) && wf_model_entries(es),
        ValueModel::Opt(o) => match o {
            Some(b) => wf_model(*b),
            None => true,
        },
        ValueModel::Res(r) => match r {
            Ok(b) => wf_model(*b),
            Err(b) => wf_model(*b),
        },
        ValueModel::IntSet(s) => distinct_elems(s),
    }
}

/// Well-formedness of every value of a sequence.
pub open spec fn wf_model_seq(s: Seq<ValueModel>) -> bool
    decreases s,
{
    s.len() == 0 || (wf_model_seq(s.drop_last()) && wf_model(s.last()))
}

/// Well-formedness of every value of an entry sequence.
pub open spec fn wf_model_entries(es: Seq<(KeyModel, ValueModel)>) -> bool
    decreases es,
{
    es.len() == 0 || (wf_model_entries(es.drop_last()) && wf_model(es.last().1))
}

/// `wf_model_seq` is the pointwise well-formedness of the elements.
pub proof fn lemma_wf_model_seq(s: Seq<ValueModel>)
    ensures
        wf_model_seq(s) <==> (forall|j: int| 0 <= j < s.len() ==> wf_model(#[trigger] s[j])),
    decreases s,
{
    if s.len() > 0 {
        lemma_wf_model_seq(s.drop_last());
        if wf_model_seq(s) {
            assert forall|j: int| 0 <= j < s.len() implies wf_model(#[trigger] s[j]) by {
                if j < s.len() - 1 {
                    assert(s.drop_last()[j] == s[j]);
                }
            }
        }
        if forall|j: int| 0 <= j < s.len() ==> wf_model(#[trigger] s[j]) {
            assert forall|j: int| 0 <= j < s.drop_last().len() implies wf_model(
                #[trigger] s.drop_last()[j],
            ) by {
                assert(s.drop_last()[j] == s[j]);
            }
        }
    }
}

/// `wf_model_entries` is the pointwise well-formedness of the values.
pub proof fn lemma_wf_model_entries(es: Seq<(KeyModel, ValueModel)>)
    ensures
        wf_model_entries(es) <==> (forall|j: int| 0 <= j < es.len() ==> wf_model(
            (#[trigger] es[j]).1,
        )),
    decreases es,
{
    if es.len() > 0 {
        lemma_wf_model_entries(es.drop_last());
        if wf_model_entries(es) {
            assert forall|j: int| 0 <= j < es.len() implies wf_model((#[trigger] es[j]).1) by {
                if j < es.len() - 1 {
                    assert(es.drop_last()[j] == es[j]);
                }
            }
        }
        if forall|j: int| 0 <= j < es.len() ==> wf_model((#[trigger] es[j]).1) {
            assert forall|j: int| 0 <= j < es.drop_last().len() implies wf_model(
                (#[trigger] es.drop_last()[j]).1,
            ) by {
                assert(es.drop_last()[j] == es[j]);
            }
        }
    }
}

/// Well-formedness of a transform: what it would swap in is well-formed.
pub open spec fn wf_transform(t: TransformModel) -> bool {
    match t {
        TransformModel::Replace(x) => wf_model(x),
        _ => true,
    }
}

/// Well-formedness of an index: what it might insert is well-formed.
pub open spec fn wf_index(i: IndexModel) -> bool {
    match i {
        IndexModel::Entry(_, d) => wf_model(d),
        IndexModel::EntryMod(_, d, t) => wf_model(d) && wf_transform(t),
        _ => true,
    }
}

/// Well-formedness of an optional previous result.
pub open spec fn wf_opt(o: Option<ValueModel>) -> bool {
    match o {
        Some(m) => wf_model(m),
        None => true,
    }
}

} // verus!
