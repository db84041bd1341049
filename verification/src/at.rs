//! The smart-access protocol: resolver and accessor capabilities, composed
//! paths, and detaching a path from its root to attach it elsewhere.

use vstd::prelude::*;

use crate::access::{access_path, run_transforms};
use crate::model::{chain_run, run_list, IndexModel, TransformModel, ValueModel};
use crate::value::{
    lemma_model_list, lemma_model_path, lemma_model_path_is, model_opt, Index, Transform, Value,
};

verus! {

broadcast use vstd::std_specs::vec::group_vec_axioms, vstd::seq::group_seq_axioms;

/// A resolver capability: a container that can resolve an index and run one
/// transform against the located sub-value, reporting whether it happened.
///
/// `access_at` either resolves `i`, applies `t` there, writes the change
/// back and returns the transform's result, or fails with `None`; what that
/// means exactly is pinned by the one-step chain semantics in the ensures.
pub trait At {
    /// The ghost model of this container.
    spec fn at_model(&self) -> ValueModel;

    /// Accesses data at a specified index, running `t` against it.
    fn access_at(&mut self, i: Index, t: Transform) -> (r: Option<Value>)
        ensures
            ({
                let o = chain_run(
                    old(self).at_model(),
                    seq![i.model()],
                    seq![t.model()],
                    None,
                );
                final(self).at_model() == o.0 && model_opt(r) == o.1
            }),
    ;
}

impl At for Value {
    open spec fn at_model(&self) -> ValueModel {
        self.model()
    }

    fn access_at(&mut self, i: Index, t: Transform) -> (r: Option<Value>) {
        let mut tmp = Value::Unit;
        core::mem::swap(self, &mut tmp);
        let mut path: Vec<Index> = Vec::new();
        path.push(i);
        let mut ts: Vec<Transform> = Vec::new();
        ts.push(t);
        proof {
            lemma_model_path_is(path@, seq![i.model()]);
            lemma_model_list(ts@);
            assert(Transform::model_list(ts@) =~= seq![t.model()]);
            assert(Index::model_path(path@).skip(0) =~= seq![i.model()]);
        }
        let (v2, r) = access_path(tmp, &path, 0, ts, None);
        *self = v2;
        r
    }
}

/// An accessor capability: anything that can resolve itself once and run a
/// sequence of transforms against the location it denotes, threading each
/// result into the next, or refuse and report failure.
///
/// The behaviour of every accessor is pinned by its ghost model and the
/// `run_m` function of its implementation; the executable methods are owed
/// to agree with it.
pub trait Cps: Sized {
    /// The type of this accessor's ghost model.
    type ModelTy;

    /// The ghost model of this accessor.
    spec fn m(self) -> Self::ModelTy;

    /// What running a transform list through an accessor with model `m`
    /// yields: the model afterwards, and the final result — `None` when
    /// the accessor failed to resolve, or when an empty list ran without a
    /// seed.
    spec fn run_m(m: Self::ModelTy, ts: Seq<TransformModel>, seed: Option<ValueModel>) -> (
        Self::ModelTy,
        Option<ValueModel>,
    );

    /// Resolves the accessor once and runs the whole transform list against
    /// the located value; `seed` is handed to the first transform as its
    /// previous result.  Consumes the accessor and returns its successor.
    fn run_all(self, ts: Vec<Transform>, seed: Option<Value>) -> (r: (Self, Option<Value>))
        ensures
            ({
                let o = Self::run_m(self.m(), Transform::model_list(ts@), model_opt(seed));
                r.0.m() == o.0 && model_opt(r.1) == o.1
            }),
    ;

    /// Applies one transform through the accessor: returns `Some` of the
    /// transform's result, or `None` if the accessor failed to resolve.
    fn access(self, t: Transform) -> (r: (Self, Option<Value>))
        ensures
            ({
                let o = Self::run_m(self.m(), seq![t.model()], None);
                r.0.m() == o.0 && model_opt(r.1) == o.1
            }),
    {
        let mut ts: Vec<Transform> = Vec::new();
        ts.push(t);
        proof {
            lemma_model_list(ts@);
            assert(Transform::model_list(ts@) =~= seq![t.model()]);
        }
        self.run_all(ts, None)
    }

    /// Swaps in `new_val` at the location; returns what was there, or
    /// `None` if the accessor failed to resolve.
    fn replace(self, new_val: Value) -> (r: (Self, Option<Value>))
        ensures
            ({
                let o = Self::run_m(
                    self.m(),
                    seq![TransformModel::Replace(new_val.model())],
                    None,
                );
                r.0.m() == o.0 && model_opt(r.1) == o.1
            }),
    {
        self.access(Transform::Replace(new_val))
    }

    /// Resolves the location and discards the result: useful to trigger
    /// insert-on-absent effects.  Returns `Some` of unit on success.
    fn touch(self) -> (r: (Self, Option<Value>))
        ensures
            ({
                let o = Self::run_m(self.m(), seq![TransformModel::Touch], None);
                r.0.m() == o.0 && model_opt(r.1) == o.1
            }),
    {
        self.access(Transform::Touch)
    }

}

/// The always-succeeding accessor: an exclusively owned value is itself the
/// location the transforms run against.
impl Cps for Value {
    type ModelTy = ValueModel;

    open spec fn m(self) -> ValueModel {
        self.model()
    }

    open spec fn run_m(m: ValueModel, ts: Seq<TransformModel>, seed: Option<ValueModel>) -> (
        ValueModel,
        Option<ValueModel>,
    ) {
        run_list(ts, m, seed)
    }

    fn run_all(self, ts: Vec<Transform>, seed: Option<Value>) -> (r: (Self, Option<Value>)) {
        run_transforms(ts, self, seed)
    }
}

/// The placeholder standing where a detached path's root used to be: an
/// accessor that always fails to resolve.
#[derive(Debug, Clone, PartialEq)]
pub struct DetachedRoot;

impl DetachedRoot {
    /// A fresh placeholder root.
    pub fn new() -> (r: DetachedRoot)
        ensures
            r == DetachedRoot,
    {
        DetachedRoot
    }
}

impl Cps for DetachedRoot {
    type ModelTy = ();

    open spec fn m(self) -> () {
        ()
    }

    open spec fn run_m(m: (), ts: Seq<TransformModel>, seed: Option<ValueModel>) -> (
        (),
        Option<ValueModel>,
    ) {
        ((), None)
    }

    fn run_all(self, ts: Vec<Transform>, seed: Option<Value>) -> (r: (Self, Option<Value>)) {
        (self, None)
    }
}

/// What anchors a path: a concrete root value, or the detached placeholder.
#[derive(Debug, PartialEq)]
enum Root {
    /// The path is anchored at an owned root value.
    Attached(Value),
    /// The path is detached: resolving it always fails.
    Detached(DetachedRoot),
}

/// A composed path: a chain of indices anchored at a root (or at the
/// detached placeholder), with a marked detach point.
///
/// Built by `at` composition; consumed by one terminal operation — an
/// access, a batch run, or a detach.
#[derive(Debug, PartialEq)]
pub struct AT {
    cps: Root,
    cut_at: usize,
    list: Vec<Index>,
}

impl AT {
    /// The root's model: the anchored value, or `None` when detached.
    pub closed spec fn root_m(self) -> Option<ValueModel> {
        match self.cps {
            Root::Attached(v) => Some(v.model()),
            Root::Detached(_) => None,
        }
    }

    /// The models of the index chain, in order.
    pub closed spec fn path_m(self) -> Seq<IndexModel> {
        Index::model_path(self.list@)
    }

    /// The marked detach point, as a position into the index chain.
    pub closed spec fn cut_m(self) -> int {
        self.cut_at as int
    }

    /// Well-formedness: the detach point lies within the chain.
    pub open spec fn wf(self) -> bool {
        self.cut_m() <= self.path_m().len()
    }

    /// Whether the path is detached from any concrete root: resolving such
    /// a path always fails.
    pub open spec fn is_detached(self) -> bool {
        self.root_m() is None
    }

    /// Composes one more index onto the path.
    pub fn at(self, i: Index) -> (r: AT)
        ensures
            r.root_m() == self.root_m(),
            r.path_m() == self.path_m().push(i.model()),
            r.cut_m() == self.cut_m(),
            self.wf() ==> r.wf(),
            r.is_detached() == self.is_detached(),
    {
        let AT { cps, cut_at, mut list } = self;
        let ghost l0 = list@;
        list.push(i);
        proof {
            lemma_model_path(l0);
            lemma_model_path_is(list@, Index::model_path(l0).push(i.model()));
        }
        AT { cps, cut_at, list }
    }

    /// Marks a new detach point at the current end of the chain: a later
    /// `detach` splits the path here.
    pub fn cut(self) -> (r: AT)
        ensures
            r.root_m() == self.root_m(),
            r.path_m() == self.path_m(),
            r.cut_m() == self.path_m().len(),
            r.wf(),
            r.is_detached() == self.is_detached(),
    {
        proof {
            lemma_model_path(self.list@);
        }
        let AT { cps, cut_at: _, list } = self;
        let n = list.len();
        AT { cps, cut_at: n, list }
    }

    /// Splits the path at the detach point: the left remainder keeps the
    /// root and the indices before the point, and the detached suffix owns
    /// the indices after it, anchored at a placeholder that always fails.
    pub fn detach(self) -> (r: (AT, AT))
        requires
            self.wf(),
        ensures
            r.0.root_m() == self.root_m(),
            r.0.path_m() == self.path_m().take(self.cut_m()),
            r.0.cut_m() == 0,
            r.0.wf(),
            r.1.is_detached(),
            r.1.path_m() == self.path_m().skip(self.cut_m()),
            r.1.cut_m() == 0,
            r.1.wf(),
    {
        proof {
            lemma_model_path(self.list@);
        }
        let AT { cps, cut_at, mut list } = self;
        let ghost l0 = list@;
        let tail = list.split_off(cut_at);
        proof {
            lemma_model_path(l0);
            lemma_model_path_is(list@, Index::model_path(l0).take(cut_at as int));
            lemma_model_path_is(tail@, Index::model_path(l0).skip(cut_at as int));
        }
        let left = AT { cps, cut_at: 0, list };
        let right = AT { cps: Root::Detached(DetachedRoot::new()), cut_at: 0, list: tail };
        (left, right)
    }

    /// Appends a detached path to this one: the detach point of the result
    /// is the seam, so detaching again gives the same suffix back.
    pub fn attach(self, path: AT) -> (r: AT)
        requires
            path.is_detached(),
        ensures
            r.root_m() == self.root_m(),
            r.path_m() == self.path_m() + path.path_m(),
            r.cut_m() == self.path_m().len(),
            self.wf() ==> r.wf(),
            r.is_detached() == self.is_detached(),
    {
        proof {
            lemma_model_path(self.list@);
            lemma_model_path(path.list@);
        }
        let AT { cps, cut_at: _, mut list } = self;
        let n = list.len();
        let AT { cps: _, cut_at: _, list: mut suffix } = path;
        let ghost l0 = list@;
        let ghost s0 = suffix@;
        list.append(&mut suffix);
        proof {
            lemma_model_path_is(list@, Index::model_path(l0) + Index::model_path(s0));
        }
        AT { cps, cut_at: n, list }
    }

    /// Gives the anchored root value back, consuming the path: `None` when
    /// the path is detached.
    pub fn into_root(self) -> (r: Option<Value>)
        ensures
            crate::value::model_opt(r) == self.root_m(),
    {
        match self.cps {
            Root::Attached(v) => Some(v),
            Root::Detached(_) => None,
        }
    }

    /// The number of indices composed onto the path so far.
    pub fn depth(&self) -> (r: usize)
        ensures
            r == self.path_m().len(),
    {
        proof {
            lemma_model_path(self.list@);
        }
        self.list.len()
    }

    /// Breaks the last path component off: the remaining path and the
    /// index, or `None` when the path was empty.  The detach point is
    /// clamped to the shortened chain.
    pub fn split_last(self) -> (r: (AT, Option<Index>))
        ensures
            r.0.root_m() == self.root_m(),
            r.0.is_detached() == self.is_detached(),
            self.path_m().len() > 0 ==> ({
                &&& r.0.path_m() == self.path_m().drop_last()
                &&& r.1 is Some
                &&& r.1->0.model() == self.path_m().last()
            }),
            self.path_m().len() == 0 ==> r.0.path_m() == self.path_m() && r.1 is None,
            r.0.cut_m() == if self.cut_m() > r.0.path_m().len() {
                r.0.path_m().len() as int
            } else {
                self.cut_m()
            },
            r.0.wf(),
    {
        let AT { cps, cut_at, mut list } = self;
        let ghost l0 = list@;
        let last = list.pop();
        proof {
            lemma_model_path(l0);
            lemma_model_path(list@);
            if l0.len() > 0 {
                lemma_model_path_is(list@, Index::model_path(l0).drop_last());
            }
        }
        let n = list.len();
        let cut2 = if cut_at > n {
            n
        } else {
            cut_at
        };
        (AT { cps, cut_at: cut2, list }, last)
    }

    /// A copy of this path: the same root, chain and detach point by the
    /// model.  Detached paths are copied this way to be attached to many
    /// roots.
    pub fn duplicate(&self) -> (r: AT)
        ensures
            r.root_m() == self.root_m(),
            r.path_m() == self.path_m(),
            r.cut_m() == self.cut_m(),
    {
        let cps = match &self.cps {
            Root::Attached(v) => Root::Attached(v.duplicate()),
            Root::Detached(_) => Root::Detached(DetachedRoot::new()),
        };
        let mut list: Vec<Index> = Vec::new();
        let mut j: usize = 0;
        while j < self.list.len()
            invariant
                0 <= j <= self.list@.len(),
                list@.len() == j,
                forall|q: int| 0 <= q < j ==> list@[q].model() == self.list@[q].model(),
            decreases self.list@.len() - j,
        {
            list.push(self.list[j].duplicate());
            j = j + 1;
        }
        proof {
            lemma_model_path(self.list@);
            lemma_model_path_is(list@, Index::model_path(self.list@));
        }
        AT { cps, cut_at: self.cut_at, list }
    }
}

impl Cps for AT {
    type ModelTy = (Option<ValueModel>, Seq<IndexModel>, int);

    open spec fn m(self) -> (Option<ValueModel>, Seq<IndexModel>, int) {
        (self.root_m(), self.path_m(), self.cut_m())
    }

    open spec fn run_m(
        m: (Option<ValueModel>, Seq<IndexModel>, int),
        ts: Seq<TransformModel>,
        seed: Option<ValueModel>,
    ) -> ((Option<ValueModel>, Seq<IndexModel>, int), Option<ValueModel>) {
        match m.0 {
            None => (m, None),
            Some(mv) => {
                let o = chain_run(mv, m.1, ts, seed);
                ((Some(o.0), m.1, m.2), o.1)
            },
        }
    }

    fn run_all(self, ts: Vec<Transform>, seed: Option<Value>) -> (r: (Self, Option<Value>)) {
        let AT { cps, cut_at, list } = self;
        match cps {
            Root::Attached(v) => {
                proof {
                    assert(Index::model_path(list@).skip(0) =~= Index::model_path(list@));
                }
                let (v2, res) = access_path(v, &list, 0, ts, seed);
                (AT { cps: Root::Attached(v2), cut_at, list }, res)
            },
            Root::Detached(d) => (AT { cps: Root::Detached(d), cut_at, list }, None),
        }
    }
}

/// A detached path: a transferable index chain that can be recombined with
/// a (possibly different) root to form a resolvable path again.
pub trait Attach: Sized {
    /// Whether this value is ready to be attached.
    spec fn can_attach(self) -> bool;

    /// The models of the indices this value carries, in order.
    spec fn suffix_m(self) -> Seq<IndexModel>;

    /// Anchors the carried index chain at the given root value.
    fn attach_to(self, cps: Value) -> (r: AT)
        requires
            self.can_attach(),
        ensures
            r.root_m() == Some(cps.model()),
            r.path_m() == self.suffix_m(),
            r.cut_m() == 0,
            r.wf(),
    ;
}

impl Attach for AT {
    open spec fn can_attach(self) -> bool {
        self.is_detached()
    }

    open spec fn suffix_m(self) -> Seq<IndexModel> {
        self.path_m()
    }

    fn attach_to(self, cps: Value) -> (r: AT) {
        let AT { cps: _, cut_at: _, list } = self;
        AT { cps: Root::Attached(cps), cut_at: 0, list }
    }
}

impl Value {
    /// Starts a path anchored at this value with one index.
    pub fn at(self, i: Index) -> (r: AT)
        ensures
            r.root_m() == Some(self.model()),
            r.path_m() == seq![i.model()],
            r.cut_m() == 0,
            r.wf(),
    {
        let mut list: Vec<Index> = Vec::new();
        list.push(i);
        proof {
            lemma_model_path_is(list@, seq![i.model()]);
        }
        AT { cps: Root::Attached(self), cut_at: 0, list }
    }

    /// Starts an empty path anchored at this value: a detach point at the
    /// very root.
    pub fn cut(self) -> (r: AT)
        ensures
            r.root_m() == Some(self.model()),
            r.path_m() == Seq::<IndexModel>::empty(),
            r.cut_m() == 0,
            r.wf(),
    {
        let list: Vec<Index> = Vec::new();
        proof {
            lemma_model_path_is(list@, Seq::<IndexModel>::empty());
        }
        AT { cps: Root::Attached(self), cut_at: 0, list }
    }

    /// Attaches a detached path to this value.
    pub fn attach<P: Attach>(self, path: P) -> (r: AT)
        requires
            path.can_attach(),
        ensures
            r.root_m() == Some(self.model()),
            r.path_m() == path.suffix_m(),
            r.cut_m() == 0,
            r.wf(),
    {
        path.attach_to(self)
    }
}

/// An index chain that can give access through a root value: the folding
/// step a composed path performs once its root accessor has resolved.
pub trait AtView: Sized {
    /// The models of the carried indices, in order.
    spec fn indices_m(self) -> Seq<IndexModel>;

    /// Resolves the carried chain against `cps` and runs `t` at the leaf.
    fn give_access(self, cps: Value, t: Transform) -> (r: (Value, Option<Value>))
        ensures
            ({
                let o = chain_run(cps.model(), self.indices_m(), seq![t.model()], None);
                r.0.model() == o.0 && model_opt(r.1) == o.1
            }),
    ;
}

impl AtView for Vec<Index> {
    open spec fn indices_m(self) -> Seq<IndexModel> {
        Index::model_path(self@)
    }

    fn give_access(self, cps: Value, t: Transform) -> (r: (Value, Option<Value>)) {
        let mut ts: Vec<Transform> = Vec::new();
        ts.push(t);
        proof {
            lemma_model_list(ts@);
            assert(Transform::model_list(ts@) =~= seq![t.model()]);
            assert(Index::model_path(self@).skip(0) =~= Index::model_path(self@));
        }
        access_path(cps, &self, 0, ts, None)
    }
}

/// Creates a detached path holding the single index `i`: it can be
/// composed further with `at` and attached to any root later.
pub fn detached_at(i: Index) -> (r: AT)
    ensures
        r.is_detached(),
        r.path_m() == seq![i.model()],
        r.cut_m() == 0,
        r.wf(),
{
    let mut list: Vec<Index> = Vec::new();
    list.push(i);
    proof {
        lemma_model_path_is(list@, seq![i.model()]);
    }
    AT { cps: Root::Detached(DetachedRoot::new()), cut_at: 0, list }
}

} // verus!
