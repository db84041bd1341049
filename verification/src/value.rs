//! The executable data types of the protocol: containers, keys, indices and
//! transforms, together with the functions mapping each onto its ghost model.

use vstd::prelude::*;

use crate::model::{IndexModel, KeyModel, TransformModel, ValueModel};

verus! {

broadcast use vstd::std_specs::vec::group_vec_axioms, vstd::seq::group_seq_axioms;

/// A key of an associative container.
#[derive(Debug, Clone, PartialEq)]
pub enum Key {
    Int(i64),
    Str(String),
}

/// A nested data value: the universe the access protocol works on.
///
/// Any value is a container for the indices that fit its shape; indices of
/// another shape simply fail to resolve in it.
#[derive(Debug, PartialEq)]
pub enum Value {
    /// The unit value; also the result of transforms that return nothing.
    Unit,
    /// An integer leaf.
    Int(i64),
    /// A text leaf.
    Str(String),
    /// A sequence container.
    Arr(Vec<Value>),
    /// An associative container: entries in insertion order.  Keys are
    /// meant to be unique; resolution always takes the first match.
    Dict(Vec<(Key, Value)>),
    /// An optional value; only the present case resolves.
    Opt(Option<Box<Value>>),
    /// A fallible value; only the success case resolves.
    Res(Result<Box<Value>, Box<Value>>),
    /// A set of integer elements, kept in insertion order.  Elements are
    /// meant to be unique; resolution always takes the first occurrence,
    /// and insertion adds nothing that is already present.
    IntSet(Vec<i64>),
}

/// One component of an access path: what to resolve in the container at hand.
#[derive(Debug, PartialEq)]
pub enum Index {
    /// One element of a sequence.
    At(usize),
    /// The segment `[start, end)` of a sequence, viewed as a sequence that
    /// may change its size.
    Range(usize, usize),
    /// The segment from `start` to the end of a sequence.
    RangeFrom(usize),
    /// The segment `[0, end)` of a sequence.
    RangeTo(usize),
    /// The whole sequence.
    RangeFull,
    /// The segment `[start, end]` of a sequence, both bounds inclusive.
    RangeIncl(usize, usize),
    /// The segment `[0, end]` of a sequence, end inclusive.
    RangeToIncl(usize),
    /// The value stored under a key; fails when the key is absent.
    Key(Key),
    /// The value stored under a key, inserting the given default first when
    /// the key is absent; never fails on an associative container.
    Entry(Key, Value),
    /// The value stored under a key, run through the given mutator first
    /// when present, or inserted as the given default when absent; never
    /// fails on an associative container.
    EntryMod(Key, Value, Box<Transform>),
    /// The payload of an optional or fallible value.
    Unwrap,
    /// Membership of an element in a set: ensures the element is present
    /// and views the whole set, so insertions chain.
    SetInsert(i64),
    /// An element of a set, inserted first when absent: the element is
    /// taken out, transformed, and reinserted, so a transform may re-key
    /// it.  Never fails on a set.
    SetEntry(i64),
    /// An element of a set, taken out, transformed and reinserted like
    /// `SetEntry`, but failing when the element is absent.
    SetKey(i64),
}

/// A transform to run against a located value.  Every transform yields a new
/// value for the location and a result; `prev` is the result of the previous
/// transform in a batch (`None` for the first, and for a single access).
#[derive(Debug, PartialEq)]
pub enum Transform {
    /// Swap in the given value; the result is the value that was there.
    Replace(Value),
    /// Leave the value alone; the result is unit.
    Touch,
    /// Add to an integer leaf, leaving it unchanged on overflow; unit result.
    AddInt(i64),
    /// Set the first element of a sequence to the given integer; the result
    /// is the element that was there.  Anything else is left alone.
    SetFirst(i64),
    /// Append the given integer to a sequence; the result is the sequence's
    /// first element after the append.  Anything else is left alone.
    PushInt(i64),
    /// Append the given integer to a sequence; the result is the given
    /// integer plus the previous integer result, if any.
    Accum(i64),
    /// Append the previous result (unit when there is none) to a sequence;
    /// the result is the sequence's length before the append.
    LogPrev,
    /// Leave the value alone; the result is a copy of it.
    Fetch,
}

impl Key {
    /// The ghost model of this key.
    pub open spec fn model(self) -> KeyModel {
        match self {
            Key::Int(i) => KeyModel::Int(i as int),
            Key::Str(s) => KeyModel::Str(s@),
        }
    }
}

impl Value {
    /// The ghost model of this value.
    pub open spec fn model(self) -> ValueModel
        decreases self,
    {
        match self {
            Value::Unit => ValueModel::Unit,
            Value::Int(i) => ValueModel::Int(i as int),
            Value::Str(t) => ValueModel::Str(t@),
            Value::Arr(v) => ValueModel::Arr(Value::model_seq(v@)),
            Value::Dict(es) => ValueModel::Dict(Value::model_entries(es@)),
            Value::Opt(o) => match o {
                None => ValueModel::Opt(None),
                Some(b) => ValueModel::Opt(Some(Box::new((*b).model()))),
            },
            Value::Res(r) => match r {
                Ok(b) => ValueModel::Res(Ok(Box::new((*b).model()))),
                Err(b) => ValueModel::Res(Err(Box::new((*b).model()))),
            },
            Value::IntSet(s) => ValueModel::IntSet(Value::model_ints(s@)),
        }
    }

    /// The ghost models of a sequence of integer elements, in order.
    pub open spec fn model_ints(s: Seq<i64>) -> Seq<int>
        decreases s,
    {
        if s.len() == 0 {
            Seq::empty()
        } else {
            Value::model_ints(s.drop_last()).push(s.last() as int)
        }
    }

    /// The ghost models of a sequence of values, in order.
    pub open spec fn model_seq(s: Seq<Value>) -> Seq<ValueModel>
        decreases s,
    {
        if s.len() == 0 {
            Seq::empty()
        } else {
            Value::model_seq(s.drop_last()).push(s.last().model())
        }
    }

    /// The ghost models of a sequence of entries, in order.
    pub open spec fn model_entries(s: Seq<(Key, Value)>) -> Seq<(KeyModel, ValueModel)>
        decreases s,
    {
        if s.len() == 0 {
            Seq::empty()
        } else {
            Value::model_entries(s.drop_last()).push(
                (s.last().0.model(), s.last().1.model()),
            )
        }
    }
}

/// `model_seq` is the pointwise model of its argument.
pub proof fn lemma_model_seq(s: Seq<Value>)
    ensures
        Value::model_seq(s).len() == s.len(),
        forall|j: int| 0 <= j < s.len() ==> Value::model_seq(s)[j] == s[j].model(),
    decreases s,
{
    if s.len() > 0 {
        lemma_model_seq(s.drop_last());
    }
}

/// `model_entries` is the pointwise model of its argument.
pub proof fn lemma_model_entries(s: Seq<(Key, Value)>)
    ensures
        Value::model_entries(s).len() == s.len(),
        forall|j: int| 0 <= j < s.len() ==> Value::model_entries(s)[j]
            == (s[j].0.model(), s[j].1.model()),
    decreases s,
{
    if s.len() > 0 {
        lemma_model_entries(s.drop_last());
    }
}

/// `model_ints` is the pointwise model of its argument.
pub proof fn lemma_model_ints(s: Seq<i64>)
    ensures
        Value::model_ints(s).len() == s.len(),
        forall|j: int| 0 <= j < s.len() ==> Value::model_ints(s)[j] == s[j] as int,
    decreases s,
{
    if s.len() > 0 {
        lemma_model_ints(s.drop_last());
        assert forall|j: int| 0 <= j < s.len() implies Value::model_ints(s)[j] == s[j] as int by {
            if j < s.len() - 1 {
                assert(s.drop_last()[j] == s[j]);
            }
        }
    }
}

/// `model_ints` of a sequence whose elements' models are known pointwise.
pub proof fn lemma_model_ints_is(s: Seq<i64>, ms: Seq<int>)
    requires
        ms.len() == s.len(),
        forall|j: int| 0 <= j < s.len() ==> ms[j] == s[j] as int,
    ensures
        Value::model_ints(s) == ms,
{
    lemma_model_ints(s);
    assert(Value::model_ints(s) =~= ms);
}

impl Index {
    /// The ghost model of this index.
    pub open spec fn model(self) -> IndexModel {
        match self {
            Index::At(n) => IndexModel::At(n as int),
            Index::Range(a, b) => IndexModel::Range(a as int, b as int),
            Index::RangeFrom(a) => IndexModel::RangeFrom(a as int),
            Index::RangeTo(b) => IndexModel::RangeTo(b as int),
            Index::RangeFull => IndexModel::RangeFull,
            Index::RangeIncl(a, b) => IndexModel::RangeIncl(a as int, b as int),
            Index::RangeToIncl(b) => IndexModel::RangeToIncl(b as int),
            Index::Key(k) => IndexModel::Key(k.model()),
            Index::Entry(k, d) => IndexModel::Entry(k.model(), d.model()),
            Index::EntryMod(k, d, t) => IndexModel::EntryMod(
                k.model(),
                d.model(),
                (*t).model(),
            ),
            Index::Unwrap => IndexModel::Unwrap,
            Index::SetInsert(x) => IndexModel::SetInsert(x as int),
            Index::SetEntry(x) => IndexModel::SetEntry(x as int),
            Index::SetKey(x) => IndexModel::SetKey(x as int),
        }
    }

    /// The ghost models of a path, in order.
    pub open spec fn model_path(s: Seq<Index>) -> Seq<IndexModel>
        decreases s,
    {
        if s.len() == 0 {
            Seq::empty()
        } else {
            Index::model_path(s.drop_last()).push(s.last().model())
        }
    }
}

/// `model_path` is the pointwise model of its argument.
pub proof fn lemma_model_path(s: Seq<Index>)
    ensures
        Index::model_path(s).len() == s.len(),
        forall|j: int| 0 <= j < s.len() ==> Index::model_path(s)[j] == s[j].model(),
    decreases s,
{
    if s.len() > 0 {
        lemma_model_path(s.drop_last());
    }
}

impl Transform {
    /// The ghost model of this transform.
    pub open spec fn model(self) -> TransformModel {
        match self {
            Transform::Replace(x) => TransformModel::Replace(x.model()),
            Transform::Touch => TransformModel::Touch,
            Transform::AddInt(d) => TransformModel::AddInt(d as int),
            Transform::SetFirst(n) => TransformModel::SetFirst(n as int),
            Transform::PushInt(n) => TransformModel::PushInt(n as int),
            Transform::Accum(n) => TransformModel::Accum(n as int),
            Transform::LogPrev => TransformModel::LogPrev,
            Transform::Fetch => TransformModel::Fetch,
        }
    }

    /// The ghost models of a transform list, in order.
    pub open spec fn model_list(s: Seq<Transform>) -> Seq<TransformModel>
        decreases s,
    {
        if s.len() == 0 {
            Seq::empty()
        } else {
            Transform::model_list(s.drop_last()).push(s.last().model())
        }
    }
}

/// `model_list` is the pointwise model of its argument.
pub proof fn lemma_model_list(s: Seq<Transform>)
    ensures
        Transform::model_list(s).len() == s.len(),
        forall|j: int| 0 <= j < s.len() ==> Transform::model_list(s)[j] == s[j].model(),
    decreases s,
{
    if s.len() > 0 {
        lemma_model_list(s.drop_last());
    }
}

/// `model_list` of a sequence whose elements' models are known pointwise.
pub proof fn lemma_model_list_is(s: Seq<Transform>, ms: Seq<TransformModel>)
    requires
        ms.len() == s.len(),
        forall|j: int| 0 <= j < s.len() ==> ms[j] == s[j].model(),
    ensures
        Transform::model_list(s) == ms,
{
    lemma_model_list(s);
    assert(Transform::model_list(s) =~= ms);
}

impl Transform {
    /// A copy of this transform, the same transform by the model.
    pub fn duplicate(&self) -> (r: Transform)
        ensures
            r.model() == self.model(),
    {
        match self {
            Transform::Replace(x) => Transform::Replace(x.duplicate()),
            Transform::Touch => Transform::Touch,
            Transform::AddInt(d) => Transform::AddInt(*d),
            Transform::SetFirst(n) => Transform::SetFirst(*n),
            Transform::PushInt(n) => Transform::PushInt(*n),
            Transform::Accum(n) => Transform::Accum(*n),
            Transform::LogPrev => Transform::LogPrev,
            Transform::Fetch => Transform::Fetch,
        }
    }
}

/// The ghost model of an optional value.
pub open spec fn model_opt(o: Option<Value>) -> Option<ValueModel> {
    match o {
        None => None,
        Some(v) => Some(v.model()),
    }
}

/// Whether two keys are the same key.
///
/// This is the library's own key comparison; contracts speak of it through
/// the key models, never through a derived equality.
pub fn key_eq(a: &Key, b: &Key) -> (r: bool)
    ensures
        r <==> a.model() == b.model(),
{
    match a {
        Key::Int(x) => match b {
            Key::Int(y) => *x == *y,
            Key::Str(_) => false,
        },
        Key::Str(x) => match b {
            Key::Str(y) => *x == *y,
            Key::Int(_) => false,
        },
    }
}

/// The position of the first entry with the given key, if any.
pub fn dict_find(es: &Vec<(Key, Value)>, k: &Key) -> (r: Option<usize>)
    ensures
        match r {
            Some(p) => {
                &&& 0 <= p < es@.len()
                &&& crate::model::has_key(Value::model_entries(es@), k.model())
                &&& p == crate::model::key_pos(Value::model_entries(es@), k.model())
            },
            None => !crate::model::has_key(Value::model_entries(es@), k.model()),
        },
{
    proof {
        lemma_model_entries(es@);
    }
    let ghost ems = Value::model_entries(es@);
    let mut p: usize = 0;
    while p < es.len()
        invariant
            0 <= p <= es@.len(),
            ems == Value::model_entries(es@),
            ems.len() == es@.len(),
            forall|j: int| 0 <= j < es@.len() ==> ems[j] == (es@[j].0.model(), es@[j].1.model()),
            forall|j: int| 0 <= j < p ==> ems[j].0 != k.model(),
        decreases es@.len() - p,
    {
        if key_eq(&es[p].0, k) {
            proof {
                lemma_key_pos_from_witness(ems, k.model(), p as int);
            }
            return Some(p);
        }
        p = p + 1;
    }
    proof {
        assert(!crate::model::has_key(ems, k.model()));
    }
    None
}

/// When position `p` holds the first entry with key `k`, `key_pos` is `p`.
pub proof fn lemma_key_pos_from_witness(
    es: Seq<(KeyModel, ValueModel)>,
    k: KeyModel,
    p: int,
)
    requires
        0 <= p < es.len(),
        es[p].0 == k,
        forall|j: int| 0 <= j < p ==> es[j].0 != k,
    ensures
        crate::model::has_key(es, k),
        crate::model::key_pos(es, k) == p,
    decreases es.len(),
{
    if p > 0 {
        assert(es.drop_first()[p - 1].0 == k);
        assert forall|j: int| 0 <= j < p - 1 implies es.drop_first()[j].0 != k by {
            assert(es[j + 1].0 != k);
        }
        lemma_key_pos_from_witness(es.drop_first(), k, p - 1);
    }
}

/// The position of the first occurrence of the given element, if any.
pub fn set_pos(es: &Vec<i64>, x: i64) -> (r: Option<usize>)
    ensures
        match r {
            Some(p) => {
                &&& 0 <= p < es@.len()
                &&& crate::model::has_elem(Value::model_ints(es@), x as int)
                &&& p == crate::model::elem_pos(Value::model_ints(es@), x as int)
            },
            None => !crate::model::has_elem(Value::model_ints(es@), x as int),
        },
{
    proof {
        lemma_model_ints(es@);
    }
    let ghost ems = Value::model_ints(es@);
    let mut p: usize = 0;
    while p < es.len()
        invariant
            0 <= p <= es@.len(),
            ems == Value::model_ints(es@),
            ems.len() == es@.len(),
            forall|j: int| 0 <= j < es@.len() ==> ems[j] == es@[j] as int,
            forall|j: int| 0 <= j < p ==> ems[j] != x as int,
        decreases es@.len() - p,
    {
        if es[p] == x {
            proof {
                lemma_elem_pos_from_witness(ems, x as int, p as int);
            }
            return Some(p);
        }
        p = p + 1;
    }
    None
}

/// When position `p` holds the first occurrence of `x`, `elem_pos` is `p`.
pub proof fn lemma_elem_pos_from_witness(s: Seq<int>, x: int, p: int)
    requires
        0 <= p < s.len(),
        s[p] == x,
        forall|j: int| 0 <= j < p ==> s[j] != x,
    ensures
        crate::model::has_elem(s, x),
        crate::model::elem_pos(s, x) == p,
    decreases s.len(),
{
    if p > 0 {
        assert(s.drop_first()[p - 1] == x);
        assert forall|j: int| 0 <= j < p - 1 implies s.drop_first()[j] != x by {
            assert(s[j + 1] != x);
        }
        lemma_elem_pos_from_witness(s.drop_first(), x, p - 1);
    }
}

/// `model_seq` of a sequence whose elements' models are known pointwise.
pub proof fn lemma_model_seq_is(s: Seq<Value>, ms: Seq<ValueModel>)
    requires
        ms.len() == s.len(),
        forall|j: int| 0 <= j < s.len() ==> ms[j] == s[j].model(),
    ensures
        Value::model_seq(s) == ms,
{
    lemma_model_seq(s);
    assert(Value::model_seq(s) =~= ms);
}

/// `model_entries` of a sequence whose entries' models are known pointwise.
pub proof fn lemma_model_entries_is(s: Seq<(Key, Value)>, ms: Seq<(KeyModel, ValueModel)>)
    requires
        ms.len() == s.len(),
        forall|j: int| 0 <= j < s.len() ==> ms[j] == (s[j].0.model(), s[j].1.model()),
    ensures
        Value::model_entries(s) == ms,
{
    lemma_model_entries(s);
    assert(Value::model_entries(s) =~= ms);
}

/// `model_path` of a sequence whose elements' models are known pointwise.
pub proof fn lemma_model_path_is(s: Seq<Index>, ms: Seq<IndexModel>)
    requires
        ms.len() == s.len(),
        forall|j: int| 0 <= j < s.len() ==> ms[j] == s[j].model(),
    ensures
        Index::model_path(s) == ms,
{
    lemma_model_path(s);
    assert(Index::model_path(s) =~= ms);
}

impl Key {
    /// A copy of this key, the same key by the model.
    pub fn duplicate(&self) -> (r: Key)
        ensures
            r.model() == self.model(),
    {
        match self {
            Key::Int(i) => Key::Int(*i),
            Key::Str(s) => Key::Str(s.clone()),
        }
    }
}

impl Value {
    /// A deep copy of this value, the same value by the model.
    #[verifier::loop_isolation(false)]
    pub fn duplicate(&self) -> (r: Value)
        ensures
            r.model() == self.model(),
        decreases self,
    {
        match self {
            Value::Unit => Value::Unit,
            Value::Int(i) => Value::Int(*i),
            Value::Arr(v) => {
                let mut out: Vec<Value> = Vec::new();
                let mut j: usize = 0;
                while j < v.len()
                    invariant
                        0 <= j <= v@.len(),
                        out@.len() == j,
                        forall|q: int| 0 <= q < j ==> out@[q].model() == v@[q].model(),
                    decreases v@.len() - j,
                {
                    out.push(v[j].duplicate());
                    j = j + 1;
                }
                proof {
                    lemma_model_seq(v@);
                    lemma_model_seq_is(out@, Value::model_seq(v@));
                }
                Value::Arr(out)
            },
            Value::Dict(es) => {
                let mut out: Vec<(Key, Value)> = Vec::new();
                let mut j: usize = 0;
                while j < es.len()
                    invariant
                        0 <= j <= es@.len(),
                        out@.len() == j,
                        forall|q: int| 0 <= q < j ==> (out@[q].0.model(), out@[q].1.model())
                            == (es@[q].0.model(), es@[q].1.model()),
                    decreases es@.len() - j,
                {
                    let k2 = es[j].0.duplicate();
                    let v2 = es[j].1.duplicate();
                    out.push((k2, v2));
                    j = j + 1;
                }
                proof {
                    lemma_model_entries(es@);
                    lemma_model_entries_is(out@, Value::model_entries(es@));
                }
                Value::Dict(out)
            },
            Value::Opt(o) => match o {
                None => Value::Opt(None),
                Some(b) => Value::Opt(Some(Box::new((&**b).duplicate()))),
            },
            Value::Res(r) => match r {
                Ok(b) => Value::Res(Ok(Box::new((&**b).duplicate()))),
                Err(b) => Value::Res(Err(Box::new((&**b).duplicate()))),
            },
            Value::Str(t) => Value::Str(t.clone()),
            Value::IntSet(es) => {
                let mut out: Vec<i64> = Vec::new();
                let mut j: usize = 0;
                while j < es.len()
                    invariant
                        0 <= j <= es@.len(),
                        out@.len() == j,
                        forall|q: int| 0 <= q < j ==> out@[q] == es@[q],
                    decreases es@.len() - j,
                {
                    out.push(es[j]);
                    j = j + 1;
                }
                proof {
                    lemma_model_ints(es@);
                    lemma_model_ints_is(out@, Value::model_ints(es@));
                }
                Value::IntSet(out)
            },
        }
    }
}

impl Index {
    /// A copy of this index, the same index by the model.
    pub fn duplicate(&self) -> (r: Index)
        ensures
            r.model() == self.model(),
    {
        match self {
            Index::At(n) => Index::At(*n),
            Index::Range(a, b) => Index::Range(*a, *b),
            Index::RangeFrom(a) => Index::RangeFrom(*a),
            Index::RangeTo(b) => Index::RangeTo(*b),
            Index::RangeFull => Index::RangeFull,
            Index::RangeIncl(a, b) => Index::RangeIncl(*a, *b),
            Index::RangeToIncl(b) => Index::RangeToIncl(*b),
            Index::Key(k) => Index::Key(k.duplicate()),
            Index::Entry(k, d) => Index::Entry(k.duplicate(), d.duplicate()),
            Index::EntryMod(k, d, t) => Index::EntryMod(
                k.duplicate(),
                d.duplicate(),
                Box::new((&**t).duplicate()),
            ),
            Index::Unwrap => Index::Unwrap,
            Index::SetInsert(x) => Index::SetInsert(*x),
            Index::SetEntry(x) => Index::SetEntry(*x),
            Index::SetKey(x) => Index::SetKey(*x),
        }
    }
}

} // verus!
