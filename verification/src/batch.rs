//! Batching: running a sequence of transforms against one resolved
//! location, threading each transform's result into the next.
//!
//! A batch pairs an accessor with an ordered list of transforms and a seed:
//! the "previous result" handed to the first transform.  A batch built by
//! [`new_batch_ct`] seeds the first transform with the unit value, as a
//! fixed chain whose first step takes no meaningful input; one built by
//! [`new_batch_rt`] seeds it with `None`, "no previous result".  Running an
//! empty batch reports failure without ever touching the accessor; running
//! a nonempty one resolves the accessor exactly once and folds the whole
//! list left to right at the located value.

use vstd::prelude::*;

use crate::at::Cps;
use crate::model::{TransformModel, ValueModel};
use crate::value::{
    lemma_model_list, lemma_model_list_is, model_opt, Transform, Value,
};

verus! {

broadcast use vstd::std_specs::vec::group_vec_axioms, vstd::seq::group_seq_axioms;

/// A builder for complex mutations: an accessor together with the
/// transforms to run against the location it denotes.
#[must_use]
pub struct CpsBatch<CPS> {
    cps: CPS,
    list: Vec<Transform>,
    seed: Option<Value>,
}

impl<CPS: Cps> CpsBatch<CPS> {
    /// The ghost model of the held accessor.
    pub closed spec fn target_m(self) -> <CPS as Cps>::ModelTy {
        self.cps.m()
    }

    /// The models of the held transforms, in order.
    pub closed spec fn list_m(self) -> Seq<TransformModel> {
        Transform::model_list(self.list@)
    }

    /// The model of the seed handed to the first transform.
    pub closed spec fn seed_m(self) -> Option<ValueModel> {
        model_opt(self.seed)
    }

    /// Runs the batch.  An empty batch returns `None` at once, without
    /// touching the accessor; a nonempty one resolves the accessor exactly
    /// once and folds the transforms at the located value.
    pub fn run(self) -> (r: (CPS, Option<Value>))
        ensures
            self.list_m().len() == 0 ==> r.0.m() == self.target_m() && r.1 is None,
            self.list_m().len() > 0 ==> ({
                let o = <CPS as Cps>::run_m(self.target_m(), self.list_m(), self.seed_m());
                r.0.m() == o.0 && model_opt(r.1) == o.1
            }),
    {
        proof {
            lemma_model_list(self.list@);
        }
        if self.list.len() == 0 {
            (self.cps, None)
        } else {
            self.cps.run_all(self.list, self.seed)
        }
    }

    /// Appends one more transform to the batch.
    pub fn add(self, t: Transform) -> (r: Self)
        ensures
            r.target_m() == self.target_m(),
            r.list_m() == self.list_m().push(t.model()),
            r.seed_m() == self.seed_m(),
    {
        let CpsBatch { cps, mut list, seed } = self;
        let ghost l0 = list@;
        list.push(t);
        proof {
            lemma_model_list(l0);
            lemma_model_list_is(list@, Transform::model_list(l0).push(t.model()));
        }
        CpsBatch { cps, list, seed }
    }

    /// Takes the last transform out of the batch, leaving it in `dst`:
    /// `None` is left there when the batch held nothing.
    pub fn pop(self, dst: &mut Option<Transform>) -> (r: Self)
        ensures
            r.target_m() == self.target_m(),
            r.seed_m() == self.seed_m(),
            self.list_m().len() > 0 ==> ({
                &&& r.list_m() == self.list_m().drop_last()
                &&& (*final(dst)) is Some
                &&& (*final(dst))->0.model() == self.list_m().last()
            }),
            self.list_m().len() == 0 ==> r.list_m() == self.list_m() && (*final(dst)) is None,
    {
        let CpsBatch { cps, mut list, seed } = self;
        let ghost l0 = list@;
        let popped = list.pop();
        proof {
            lemma_model_list(l0);
            lemma_model_list(list@);
            if l0.len() > 0 {
                lemma_model_list_is(list@, Transform::model_list(l0).drop_last());
            }
        }
        *dst = popped;
        CpsBatch { cps, list, seed }
    }

    /// Empties the batch: running it afterwards touches nothing.
    pub fn clear(self) -> (r: Self)
        ensures
            r.target_m() == self.target_m(),
            r.list_m() == Seq::<TransformModel>::empty(),
            r.seed_m() == self.seed_m(),
    {
        let CpsBatch { cps, mut list, seed } = self;
        list.clear();
        proof {
            lemma_model_list(list@);
            assert(Transform::model_list(list@) =~= Seq::<TransformModel>::empty());
        }
        CpsBatch { cps, list, seed }
    }

    /// The number of transforms the batch holds.
    pub fn len(&self) -> (r: usize)
        ensures
            r == self.list_m().len(),
    {
        proof {
            lemma_model_list(self.list@);
        }
        self.list.len()
    }

    /// A direct access to the underlying transform list: swaps in a new
    /// list and hands the old one out for arbitrary editing.
    pub fn edit(&mut self, new_list: Vec<Transform>) -> (r: Vec<Transform>)
        ensures
            final(self).target_m() == old(self).target_m(),
            final(self).seed_m() == old(self).seed_m(),
            final(self).list_m() == Transform::model_list(new_list@),
            Transform::model_list(r@) == old(self).list_m(),
    {
        let mut swapped = new_list;
        core::mem::swap(&mut self.list, &mut swapped);
        swapped
    }
}

/// A batch over the always-succeeding accessor of an owned value, whose
/// first transform receives the unit value: the counterpart of a transform
/// chain fixed at composition time.
pub fn new_batch_ct<CPS: Cps>(cps: CPS) -> (r: CpsBatch<CPS>)
    ensures
        r.target_m() == cps.m(),
        r.list_m() == Seq::<TransformModel>::empty(),
        r.seed_m() == Some(ValueModel::Unit),
{
    let list: Vec<Transform> = Vec::new();
    proof {
        lemma_model_list(list@);
        assert(Transform::model_list(list@) =~= Seq::<TransformModel>::empty());
    }
    CpsBatch { cps, list, seed: Some(Value::Unit) }
}

/// A batch whose first transform receives `None`, "no previous result":
/// the growable, loop-friendly flavour.
pub fn new_batch_rt<CPS: Cps>(cps: CPS) -> (r: CpsBatch<CPS>)
    ensures
        r.target_m() == cps.m(),
        r.list_m() == Seq::<TransformModel>::empty(),
        r.seed_m() == None::<ValueModel>,
{
    let list: Vec<Transform> = Vec::new();
    proof {
        lemma_model_list(list@);
        assert(Transform::model_list(list@) =~= Seq::<TransformModel>::empty());
    }
    CpsBatch { cps, list, seed: None }
}

/// A transform list that can be run directly against a located value,
/// threading each result into the next: the folding engine a batch uses
/// once its accessor has resolved.
pub trait RunBatch: Sized {
    /// The models of the carried transforms, in order.
    spec fn transforms_m(self) -> Seq<TransformModel>;

    /// Folds the transforms over `view` from left to right, starting from
    /// `prev`; hands back the last result, or `prev` when there is none.
    fn run(self, view: Value, prev: Option<Value>) -> (r: (Value, Option<Value>))
        ensures
            ({
                let o = crate::model::run_list(self.transforms_m(), view.model(), model_opt(prev));
                r.0.model() == o.0 && model_opt(r.1) == o.1
            }),
    ;
}

impl RunBatch for Vec<Transform> {
    open spec fn transforms_m(self) -> Seq<TransformModel> {
        Transform::model_list(self@)
    }

    fn run(self, view: Value, prev: Option<Value>) -> (r: (Value, Option<Value>)) {
        crate::access::run_transforms(self, view, prev)
    }
}

/// An abstraction over batches: the one thing a batch can always do is be
/// run.
#[must_use]
pub trait Batch: Sized {
    /// The accessor type the batch runs against.
    type Target: Cps;

    /// The ghost model of the held accessor.
    spec fn target_b(self) -> <Self::Target as Cps>::ModelTy;

    /// The models of the held transforms, in order.
    spec fn list_b(self) -> Seq<TransformModel>;

    /// The model of the seed handed to the first transform.
    spec fn seed_b(self) -> Option<ValueModel>;

    /// Runs the batch, with the contract of [`CpsBatch::run`].
    fn run(self) -> (r: (Self::Target, Option<Value>))
        ensures
            self.list_b().len() == 0 ==> r.0.m() == self.target_b() && r.1 is None,
            self.list_b().len() > 0 ==> ({
                let o = <Self::Target as Cps>::run_m(
                    self.target_b(),
                    self.list_b(),
                    self.seed_b(),
                );
                r.0.m() == o.0 && model_opt(r.1) == o.1
            }),
    ;
}

impl<CPS: Cps> Batch for CpsBatch<CPS> {
    type Target = CPS;

    open spec fn target_b(self) -> <CPS as Cps>::ModelTy {
        self.target_m()
    }

    open spec fn list_b(self) -> Seq<TransformModel> {
        self.list_m()
    }

    open spec fn seed_b(self) -> Option<ValueModel> {
        self.seed_m()
    }

    fn run(self) -> (r: (CPS, Option<Value>)) {
        self.run()
    }
}

/// A batch that can still grow at its end, in the style of a chain fixed
/// at composition time: transforms are appended and the whole batch is
/// consumed by `run`.
#[must_use]
pub trait BatchCt: Batch {
    /// Appends one more transform.
    fn add(self, t: Transform) -> (r: Self)
        ensures
            r.target_b() == self.target_b(),
            r.list_b() == self.list_b().push(t.model()),
            r.seed_b() == self.seed_b(),
    ;

    /// Empties the batch.
    fn clear(self) -> (r: Self)
        ensures
            r.target_b() == self.target_b(),
            r.list_b() == Seq::<TransformModel>::empty(),
            r.seed_b() == self.seed_b(),
    ;
}

impl<CPS: Cps> BatchCt for CpsBatch<CPS> {
    fn add(self, t: Transform) -> (r: Self) {
        self.add(t)
    }

    fn clear(self) -> (r: Self) {
        self.clear()
    }
}

/// A batch whose transform list can be edited freely between composition
/// and run: grown, popped, or swapped out wholesale.
#[must_use]
pub trait BatchRt: Batch {
    /// Appends one more transform.
    fn add(self, t: Transform) -> (r: Self)
        ensures
            r.target_b() == self.target_b(),
            r.list_b() == self.list_b().push(t.model()),
            r.seed_b() == self.seed_b(),
    ;

    /// Empties the batch.
    fn clear(self) -> (r: Self)
        ensures
            r.target_b() == self.target_b(),
            r.list_b() == Seq::<TransformModel>::empty(),
            r.seed_b() == self.seed_b(),
    ;

    /// Takes the last transform, leaving it in `dst`.
    fn pop(self, dst: &mut Option<Transform>) -> (r: Self)
        ensures
            r.target_b() == self.target_b(),
            r.seed_b() == self.seed_b(),
            self.list_b().len() > 0 ==> ({
                &&& r.list_b() == self.list_b().drop_last()
                &&& (*final(dst)) is Some
                &&& (*final(dst))->0.model() == self.list_b().last()
            }),
            self.list_b().len() == 0 ==> r.list_b() == self.list_b() && (*final(dst)) is None,
    ;

    /// Swaps in a new transform list and hands the old one out.
    fn edit(&mut self, new_list: Vec<Transform>) -> (r: Vec<Transform>)
        ensures
            (final(self)).target_b() == old(self).target_b(),
            (final(self)).seed_b() == old(self).seed_b(),
            (final(self)).list_b() == Transform::model_list(new_list@),
            Transform::model_list(r@) == old(self).list_b(),
    ;
}

impl<CPS: Cps> BatchRt for CpsBatch<CPS> {
    fn add(self, t: Transform) -> (r: Self) {
        self.add(t)
    }

    fn clear(self) -> (r: Self) {
        self.clear()
    }

    fn pop(self, dst: &mut Option<Transform>) -> (r: Self) {
        self.pop(dst)
    }

    fn edit(&mut self, new_list: Vec<Transform>) -> (r: Vec<Transform>) {
        self.edit(new_list)
    }
}

} // verus!
