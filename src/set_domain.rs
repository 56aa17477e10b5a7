//! The set domain: an ordered set of `u32` as the model, a compressed bitmap
//! as the system under test.

use vstd::prelude::*;
use std::collections::BTreeSet;
use roaring::RoaringBitmap;
use crate::engine::{Divergence, ModelProps, Report};

verus! {

broadcast use vstd::std_specs::btree::group_btree_axioms;

#[verifier::external_type_specification]
#[verifier::external_body]
pub struct ExRoaringBitmap(RoaringBitmap);

/// The values that a bitmap holds.
pub uninterp spec fn bitmap_contents(b: RoaringBitmap) -> Set<u32>;

/// Relies on `RoaringBitmap::new`: a bitmap that holds nothing.
#[verifier::external_body]
pub(crate) fn new_bitmap() -> (r: RoaringBitmap)
    ensures
        bitmap_contents(r) == Set::<u32>::empty(),
{
    RoaringBitmap::new()
}

/// Relies on `RoaringBitmap::insert`: adds the value, and says whether it was absent.
#[verifier::external_body]
fn bitmap_insert(b: &mut RoaringBitmap, v: u32) -> (r: bool)
    ensures
        bitmap_contents(*final(b)) == bitmap_contents(*old(b)).insert(v),
        r == !bitmap_contents(*old(b)).contains(v),
{
    b.insert(v)
}

/// Relies on `RoaringBitmap::remove`: takes the value out, and says whether it was present.
#[verifier::external_body]
fn bitmap_remove(b: &mut RoaringBitmap, v: u32) -> (r: bool)
    ensures
        bitmap_contents(*final(b)) == bitmap_contents(*old(b)).remove(v),
        r == bitmap_contents(*old(b)).contains(v),
{
    b.remove(v)
}

/// Relies on `RoaringBitmap::contains`: whether the value is present.
#[verifier::external_body]
fn bitmap_contains(b: &RoaringBitmap, v: u32) -> (r: bool)
    ensures
        r == bitmap_contents(*b).contains(v),
{
    b.contains(v)
}

/// The reference model: an ordered set.
#[derive(Debug, Clone)]
pub struct BitmapModel {
    data: BTreeSet<u32>,
}

impl View for BitmapModel {
    type V = Set<u32>;

    closed spec fn view(&self) -> Set<u32> {
        self.data@
    }
}

impl BitmapModel {
    pub fn new() -> (r: Self)
        ensures
            r@ == Set::<u32>::empty(),
    {
        BitmapModel { data: BTreeSet::new() }
    }

    /// Adds the value; true iff it was not there before.
    pub fn insert(&mut self, value: u32) -> (r: bool)
        ensures
            final(self)@ == old(self)@.insert(value),
            r == !old(self)@.contains(value),
    {
        self.data.insert(value)
    }

    /// Takes the value out; true iff it was there.
    pub fn remove(&mut self, value: u32) -> (r: bool)
        ensures
            final(self)@ == old(self)@.remove(value),
            r == old(self)@.contains(value),
    {
        self.data.remove(&value)
    }

    pub fn contains(&self, value: u32) -> (r: bool)
        ensures
            r == self@.contains(value),
    {
        self.data.contains(&value)
    }
}

/// One operation of the set domain.
#[derive(Debug, Clone, Copy, PartialEq, Eq, Structural)]
pub enum Action {
    Insert(u32),
    Remove(u32),
    Contains(u32),
}

/// The observable result of an action on a set holding `s`.
pub open spec fn action_result(s: Set<u32>, a: Action) -> bool {
    match a {
        Action::Insert(v) => !s.contains(v),
        Action::Remove(v) => s.contains(v),
        Action::Contains(v) => s.contains(v),
    }
}

/// The set after an action on a set holding `s`.
pub open spec fn apply_action(s: Set<u32>, a: Action) -> Set<u32> {
    match a {
        Action::Insert(v) => s.insert(v),
        Action::Remove(v) => s.remove(v),
        Action::Contains(_) => s,
    }
}

/// The set after a whole sequence of actions, starting from `s`.
pub open spec fn apply_all(s: Set<u32>, acts: Seq<Action>) -> Set<u32>
    decreases acts.len(),
{
    if acts.len() == 0 {
        s
    } else {
        apply_action(apply_all(s, acts.drop_last()), acts.last())
    }
}

/// The results of a sequence of actions replayed from the empty set.
pub open spec fn outcomes(acts: Seq<Action>) -> Seq<bool> {
    Seq::new(
        acts.len(),
        |i: int| action_result(apply_all(Set::<u32>::empty(), acts.take(i)), acts[i]),
    )
}

/// Compares two results of one action; a mismatch is a divergence.
pub fn check_result(action: &Action, model_result: bool, actual_result: bool) -> (r: Result<
    (),
    Divergence<Action, bool>,
>)
    ensures
        r is Ok <==> model_result == actual_result,
        r matches Err(d) ==> d.action == *action && d.model_result == model_result
            && d.system_result == actual_result,
{
    if actual_result != model_result {
        Err(Divergence { action: *action, model_result, system_result: actual_result })
    } else {
        Ok(())
    }
}

/// Applies one action to the model and to the bitmap and compares what they return.
pub fn apply_and_check_result(
    action: &Action,
    model: &mut BitmapModel,
    actual: &mut RoaringBitmap,
) -> (r: Result<(), Divergence<Action, bool>>)
    ensures
        final(model)@ == apply_action(old(model)@, *action),
        bitmap_contents(*final(actual)) == apply_action(bitmap_contents(*old(actual)), *action),
        r is Ok <==> action_result(old(model)@, *action) == action_result(
            bitmap_contents(*old(actual)),
            *action,
        ),
        r matches Err(d) ==> d.action == *action && d.model_result == action_result(
            old(model)@,
            *action,
        ) && d.system_result == action_result(bitmap_contents(*old(actual)), *action),
        old(model)@ == bitmap_contents(*old(actual)) ==> r is Ok && final(model)@
            == bitmap_contents(*final(actual)),
{
    match action {
        Action::Remove(item) => {
            let m = model.remove(*item);
            let a = bitmap_remove(actual, *item);
            check_result(action, m, a)
        },
        Action::Insert(item) => {
            let m = model.insert(*item);
            let a = bitmap_insert(actual, *item);
            check_result(action, m, a)
        },
        Action::Contains(item) => {
            let m = model.contains(*item);
            let a = bitmap_contains(actual, *item);
            check_result(action, m, a)
        },
    }
}

/// Replays `actions` against a fresh model and a fresh bitmap, stopping at
/// the first divergence. The two start equal and stay in lock-step, so the
/// replay always succeeds.
pub fn run_sequence(actions: &Vec<Action>) -> (r: Result<(), Report<Action, bool>>)
    ensures
        r is Ok,
{
    let mut model = BitmapModel::new();
    let mut actual = new_bitmap();
    let mut i: usize = 0;
    while i < actions.len()
        invariant
            i <= actions.len(),
            model@ == bitmap_contents(actual),
            model@ == apply_all(Set::<u32>::empty(), actions@.take(i as int)),
        decreases actions.len() - i,
    {
        let res = apply_and_check_result(&actions[i], &mut model, &mut actual);
        if let Err(d) = res {
            return Err(Report { failing_index: i, divergence: d });
        }
        assert(actions@.take(i + 1).drop_last() == actions@.take(i as int));
        i = i + 1;
    }
    Ok(())
}

/// Replays `actions` on a fresh model alone and collects its results.
pub fn model_results(actions: &Vec<Action>) -> (r: Vec<bool>)
    ensures
        r@ == outcomes(actions@),
{
    let mut model = BitmapModel::new();
    let mut out: Vec<bool> = Vec::new();
    let mut i: usize = 0;
    while i < actions.len()
        invariant
            i <= actions.len(),
            model@ == apply_all(Set::<u32>::empty(), actions@.take(i as int)),
            out@ == outcomes(actions@).take(i as int),
        decreases actions.len() - i,
    {
        let m = match actions[i] {
            Action::Insert(v) => model.insert(v),
            Action::Remove(v) => model.remove(v),
            Action::Contains(v) => model.contains(v),
        };
        out.push(m);
        assert(actions@.take(i + 1).drop_last() == actions@.take(i as int));
        assert(out@ == outcomes(actions@).take(i + 1));
        i = i + 1;
    }
    assert(out@ == outcomes(actions@));
    out
}

/// Compares the results that some system returned for `actions` (one per
/// action, in order) with the model's, and reports the first mismatch.
pub fn replay_against(actions: &Vec<Action>, observed: &Vec<bool>) -> (r: Result<
    (),
    Report<Action, bool>,
>)
    requires
        observed.len() == actions.len(),
    ensures
        r is Ok <==> observed@ == outcomes(actions@),
        r matches Err(rep) ==> {
            let k = rep.failing_index as int;
            &&& 0 <= k < actions.len()
            &&& observed@[k] != outcomes(actions@)[k]
            &&& forall|j: int| 0 <= j < k ==> observed@[j] == outcomes(actions@)[j]
            &&& rep.divergence.action == actions@[k]
            &&& rep.divergence.model_result == outcomes(actions@)[k]
            &&& rep.divergence.system_result == observed@[k]
        },
{
    let expected = model_results(actions);
    let mut i: usize = 0;
    while i < actions.len()
        invariant
            i <= actions.len(),
            expected@ == outcomes(actions@),
            observed.len() == actions.len(),
            forall|j: int| 0 <= j < i ==> observed@[j] == expected@[j],
        decreases actions.len() - i,
    {
        let res = check_result(&actions[i], expected[i], observed[i]);
        if let Err(d) = res {
            return Err(Report { failing_index: i, divergence: d });
        }
        i = i + 1;
    }
    assert(observed@ == outcomes(actions@));
    Ok(())
}

/// The set domain as a pluggable triple.
pub struct SetDomain;

impl ModelProps<BitmapModel, Action, RoaringBitmap> for SetDomain {
    type Outcome = bool;

    open spec fn model_wf(model: BitmapModel) -> bool {
        true
    }

    open spec fn step_ok(action: Action, model: BitmapModel, system: RoaringBitmap) -> bool {
        action_result(model@, action) == action_result(bitmap_contents(system), action)
    }

    open spec fn stepped(
        action: Action,
        model: BitmapModel,
        system: RoaringBitmap,
        model2: BitmapModel,
        system2: RoaringBitmap,
    ) -> bool {
        &&& model2@ == apply_action(model@, action)
        &&& bitmap_contents(system2) == apply_action(bitmap_contents(system), action)
    }

    open spec fn reports(
        action: Action,
        model: BitmapModel,
        system: RoaringBitmap,
        d: Divergence<Action, bool>,
    ) -> bool {
        &&& d.action == action
        &&& d.model_result == action_result(model@, action)
        &&& d.system_result == action_result(bitmap_contents(system), action)
    }

    fn initial_model() -> (m: BitmapModel) {
        BitmapModel::new()
    }

    fn check_precondition(action: &Action, model: &BitmapModel) -> bool {
        true
    }

    fn apply_action_and_check_result(
        action: Action,
        model: &mut BitmapModel,
        system: &mut RoaringBitmap,
    ) -> (r: Result<(), Divergence<Action, bool>>) {
        apply_and_check_result(&action, model, system)
    }
}

} // verus!
