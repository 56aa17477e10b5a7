//! The priority-map domain: a list of (priority, key) pairs with unique keys
//! as the model, an indexed priority queue as the system under test.

use vstd::prelude::*;
use priority_queue::PriorityQueue;
use crate::engine::{Divergence, ModelProps, Report};

verus! {

#[verifier::external_type_specification]
#[verifier::external_body]
#[verifier::reject_recursive_types(I)]
#[verifier::reject_recursive_types(P)]
#[verifier::reject_recursive_types(H)]
pub struct ExPriorityQueue<I, P, H>(PriorityQueue<I, P, H>);

/// The queue type under test: string keys with `i32` priorities.
pub type Queue = PriorityQueue<String, i32>;

/// The key-to-priority association that a queue holds.
pub uninterp spec fn queue_contents(q: Queue) -> Map<Seq<char>, i32>;

/// Relies on `PriorityQueue::new`: a queue that holds nothing.
#[verifier::external_body]
pub(crate) fn new_queue() -> (r: Queue)
    ensures
        queue_contents(r).dom().is_empty(),
{
    PriorityQueue::new()
}

/// Relies on `PriorityQueue::push`: sets the key's priority and returns the
/// one it had, if it was present.
#[verifier::external_body]
fn queue_push(q: &mut Queue, item: String, prio: i32) -> (r: Option<i32>)
    ensures
        queue_contents(*final(q)) == queue_contents(*old(q)).insert(item@, prio),
        r == push_result(queue_contents(*old(q)), item@),
{
    q.push(item, prio)
}

/// Relies on `PriorityQueue::remove`: takes the key out and returns it with
/// its priority, if it was present.
#[verifier::external_body]
fn queue_remove(q: &mut Queue, item: &str) -> (r: Option<(String, i32)>)
    ensures
        queue_contents(*final(q)) == queue_contents(*old(q)).remove(item@),
        opt_pair_view(r) == remove_result(queue_contents(*old(q)), item@),
{
    q.remove(item)
}

/// What a push of key `k` returns on an association `m`.
pub open spec fn push_result(m: Map<Seq<char>, i32>, k: Seq<char>) -> Option<i32> {
    if m.contains_key(k) {
        Some(m[k])
    } else {
        None
    }
}

/// What a removal of key `k` returns on an association `m`.
pub open spec fn remove_result(m: Map<Seq<char>, i32>, k: Seq<char>) -> Option<(Seq<char>, i32)> {
    if m.contains_key(k) {
        Some((k, m[k]))
    } else {
        None
    }
}

pub open spec fn opt_pair_view(r: Option<(String, i32)>) -> Option<(Seq<char>, i32)> {
    match r {
        Some(p) => Some((p.0@, p.1)),
        None => None,
    }
}

/// The reference model: (priority, key) pairs in order of first push.
#[derive(Debug)]
pub struct PqueueModel {
    items: Vec<(i32, String)>,
}

/// The pairs of a list as plain values.
pub open spec fn pairs_view(v: Seq<(i32, String)>) -> Seq<(i32, Seq<char>)> {
    v.map_values(|p: (i32, String)| (p.0, p.1@))
}

/// Every key occurs at most once.
pub open spec fn keys_unique(s: Seq<(i32, Seq<char>)>) -> bool {
    forall|i: int, j: int| 0 <= i < s.len() && 0 <= j < s.len() && s[i].1 == s[j].1 ==> i == j
}

pub open spec fn has_key(s: Seq<(i32, Seq<char>)>, k: Seq<char>) -> bool {
    exists|i: int| 0 <= i < s.len() && s[i].1 == k
}

/// The position of key `k` in `s` (meaningful where `has_key(s, k)`).
pub open spec fn index_of(s: Seq<(i32, Seq<char>)>, k: Seq<char>) -> int {
    choose|i: int| 0 <= i < s.len() && s[i].1 == k
}

/// The association that a list of pairs stands for.
pub open spec fn as_map(s: Seq<(i32, Seq<char>)>) -> Map<Seq<char>, i32> {
    Map::new(|k: Seq<char>| has_key(s, k), |k: Seq<char>| s[index_of(s, k)].0)
}


/// With unique keys, the position of a listed key is where it stands.
proof fn lemma_index_of(s: Seq<(i32, Seq<char>)>, i: int)
    requires
        keys_unique(s),
        0 <= i < s.len(),
    ensures
        has_key(s, s[i].1),
        index_of(s, s[i].1) == i,
        as_map(s).contains_key(s[i].1),
        as_map(s)[s[i].1] == s[i].0,
{
    assert(has_key(s, s[i].1));
}

proof fn lemma_map_update(s: Seq<(i32, Seq<char>)>, i: int, p: i32)
    requires
        keys_unique(s),
        0 <= i < s.len(),
    ensures
        keys_unique(s.update(i, (p, s[i].1))),
        as_map(s.update(i, (p, s[i].1))) == as_map(s).insert(s[i].1, p),
{
    let k = s[i].1;
    let t = s.update(i, (p, k));
    assert(keys_unique(t));
    assert forall|k2: Seq<char>| has_key(t, k2) <==> has_key(s, k2) by {
        if has_key(t, k2) {
            let j = choose|j: int| 0 <= j < t.len() && t[j].1 == k2;
            assert(s[j].1 == k2);
        }
        if has_key(s, k2) {
            let j = choose|j: int| 0 <= j < s.len() && s[j].1 == k2;
            assert(t[j].1 == k2);
        }
    }
    assert forall|k2: Seq<char>| #[trigger] has_key(t, k2) implies as_map(t)[k2] == as_map(s).insert(k, p)[k2] by {
        let j = choose|j: int| 0 <= j < t.len() && t[j].1 == k2;
        lemma_index_of(t, j);
        lemma_index_of(s, j);
    }
    assert(as_map(t) =~= as_map(s).insert(k, p));
}

proof fn lemma_map_push(s: Seq<(i32, Seq<char>)>, k: Seq<char>, p: i32)
    requires
        keys_unique(s),
        !has_key(s, k),
    ensures
        keys_unique(s.push((p, k))),
        as_map(s.push((p, k))) == as_map(s).insert(k, p),
{
    let t = s.push((p, k));
    assert(keys_unique(t)) by {
        assert forall|i: int, j: int| 0 <= i < t.len() && 0 <= j < t.len() && t[i].1 == t[j].1 implies i == j by {
            if i < s.len() {
                assert(s[i].1 == t[i].1);
            }
            if j < s.len() {
                assert(s[j].1 == t[j].1);
            }
        }
    }
    assert forall|k2: Seq<char>| has_key(t, k2) <==> (has_key(s, k2) || k2 == k) by {
        if has_key(t, k2) {
            let j = choose|j: int| 0 <= j < t.len() && t[j].1 == k2;
            if j < s.len() {
                assert(s[j].1 == k2);
            }
        }
        if has_key(s, k2) {
            let j = choose|j: int| 0 <= j < s.len() && s[j].1 == k2;
            assert(t[j].1 == k2);
        }
        if k2 == k {
            assert(t[s.len() as int].1 == k2);
        }
    }
    assert forall|k2: Seq<char>| #[trigger] has_key(t, k2) implies as_map(t)[k2] == as_map(s).insert(k, p)[k2] by {
        let j = choose|j: int| 0 <= j < t.len() && t[j].1 == k2;
        lemma_index_of(t, j);
        if j < s.len() {
            assert(s[j] == t[j]);
            lemma_index_of(s, j);
        }
    }
    assert(as_map(t) =~= as_map(s).insert(k, p));
}


proof fn lemma_map_remove(s: Seq<(i32, Seq<char>)>, i: int)
    requires
        keys_unique(s),
        0 <= i < s.len(),
    ensures
        keys_unique(s.remove(i)),
        as_map(s.remove(i)) == as_map(s).remove(s[i].1),
{
    let k = s[i].1;
    let t = s.remove(i);
    assert(keys_unique(t)) by {
        assert forall|a: int, b: int| 0 <= a < t.len() && 0 <= b < t.len() && t[a].1 == t[b].1 implies a == b by {
            let a2 = if a < i { a } else { a + 1 };
            let b2 = if b < i { b } else { b + 1 };
            assert(t[a] == s[a2]);
            assert(t[b] == s[b2]);
        }
    }
    assert forall|k2: Seq<char>| has_key(t, k2) <==> (has_key(s, k2) && k2 != k) by {
        if has_key(t, k2) {
            let j = choose|j: int| 0 <= j < t.len() && t[j].1 == k2;
            let j2 = if j < i { j } else { j + 1 };
            assert(s[j2].1 == k2);
        }
        if has_key(s, k2) && k2 != k {
            let j = choose|j: int| 0 <= j < s.len() && s[j].1 == k2;
            let j2 = if j < i { j } else { j - 1 };
            assert(t[j2].1 == k2);
        }
    }
    assert forall|k2: Seq<char>| #[trigger] has_key(t, k2) implies as_map(t)[k2] == as_map(s).remove(k)[k2] by {
        let j = choose|j: int| 0 <= j < t.len() && t[j].1 == k2;
        let j2 = if j < i { j } else { j + 1 };
        assert(t[j] == s[j2]);
        lemma_index_of(t, j);
        lemma_index_of(s, j2);
    }
    assert(as_map(t) =~= as_map(s).remove(k));
}

impl View for PqueueModel {
    type V = Seq<(i32, Seq<char>)>;

    closed spec fn view(&self) -> Seq<(i32, Seq<char>)> {
        pairs_view(self.items@)
    }
}

impl PqueueModel {
    pub open spec fn wf(&self) -> bool {
        keys_unique(self@)
    }

    pub fn new() -> (r: Self)
        ensures
            r@.len() == 0,
            r.wf(),
    {
        let r = PqueueModel { items: Vec::new() };
        assert(r@ =~= Seq::<(i32, Seq<char>)>::empty());
        r
    }

    fn find_item_index(&self, item: &str) -> (r: Option<usize>)
        ensures
            r matches Some(i) ==> i < self@.len() && self@[i as int].1 == item@ && forall|j: int|
                0 <= j < i ==> self@[j].1 != item@,
            r is None ==> !has_key(self@, item@),
    {
        proof {
            self.lemma_view_len();
        }
        let key = item.to_owned();
        let mut i: usize = 0;
        while i < self.items.len()
            invariant
                i <= self.items.len(),
                key@ == item@,
                self@.len() == self.items@.len(),
                forall|j: int| 0 <= j < i ==> self@[j].1 != item@,
                forall|j: int| 0 <= j < self.items@.len() ==> #[trigger] self@[j] == (self.items@[j].0, self.items@[j].1@),
            decreases self.items.len() - i,
        {
            if self.items[i].1 == key {
                return Some(i);
            }
            i = i + 1;
        }
        None
    }

    /// Sets the key's priority, keeping its place if it is already listed,
    /// appending it otherwise; returns the priority it had.
    pub fn push(&mut self, item: String, prio: i32) -> (r: Option<i32>)
        requires
            old(self).wf(),
        ensures
            final(self).wf(),
            r == push_result(as_map(old(self)@), item@),
            has_key(old(self)@, item@) ==> final(self)@ == old(self)@.update(
                index_of(old(self)@, item@),
                (prio, item@),
            ),
            !has_key(old(self)@, item@) ==> final(self)@ == old(self)@.push((prio, item@)),
            as_map(final(self)@) == as_map(old(self)@).insert(item@, prio),
    {
        proof {
            self.lemma_view_len();
        }
        if let Some(idx) = self.find_item_index(item.as_str()) {
            let old_prio = self.items[idx].0;
            let ghost k = item@;
            self.items.set(idx, (prio, item));
            proof {
                assert(pairs_view(self.items@) =~= pairs_view(old(self).items@).update(idx as int, (prio, k)));
                lemma_index_of(old(self)@, idx as int);
                lemma_map_update(old(self)@, idx as int, prio);
            }
            Some(old_prio)
        } else {
            let ghost k = item@;
            self.items.push((prio, item));
            proof {
                assert(pairs_view(self.items@) =~= pairs_view(old(self).items@).push((prio, k)));
                lemma_map_push(old(self)@, k, prio);
            }
            None
        }
    }

    /// Takes the key out of the list; returns it with the priority it had.
    pub fn remove(&mut self, item: &str) -> (r: Option<(String, i32)>)
        requires
            old(self).wf(),
        ensures
            final(self).wf(),
            opt_pair_view(r) == remove_result(as_map(old(self)@), item@),
            has_key(old(self)@, item@) ==> final(self)@ == old(self)@.remove(index_of(old(self)@, item@)),
            !has_key(old(self)@, item@) ==> final(self)@ == old(self)@,
            as_map(final(self)@) == as_map(old(self)@).remove(item@),
    {
        proof {
            self.lemma_view_len();
        }
        if let Some(idx) = self.find_item_index(item) {
            let (prio, key) = self.items.remove(idx);
            proof {
                assert(pairs_view(self.items@) =~= pairs_view(old(self).items@).remove(idx as int));
                lemma_index_of(old(self)@, idx as int);
                lemma_map_remove(old(self)@, idx as int);
            }
            Some((key, prio))
        } else {
            proof {
                assert(as_map(old(self)@) =~= as_map(old(self)@).remove(item@));
            }
            None
        }
    }

    proof fn lemma_view_len(&self)
        ensures
            self@.len() == self.items@.len(),
            forall|i: int| 0 <= i < self.items@.len() ==> #[trigger] self@[i] == (self.items@[i].0, self.items@[i].1@),
    {
    }
}

/// One operation of the priority-map domain.
#[derive(Debug, Clone, PartialEq, Eq)]
pub enum Action {
    Push(i32, String),
    Remove(String),
}

impl Action {
    /// An identical copy of the action.
    pub fn duplicate(&self) -> (r: Action)
        ensures
            r == *self,
    {
        match self {
            Action::Push(p, k) => Action::Push(*p, k.clone()),
            Action::Remove(k) => Action::Remove(k.clone()),
        }
    }
}

/// The observable result of one action.
#[derive(Debug, Clone, PartialEq, Eq)]
pub enum Outcome {
    /// What `push` returned: the key's earlier priority, if any.
    Pushed(Option<i32>),
    /// What `remove` returned: the key and its priority, if it was present.
    Removed(Option<(String, i32)>),
}

/// An outcome as plain values.
pub enum OutcomeV {
    Pushed(Option<i32>),
    Removed(Option<(Seq<char>, i32)>),
}

impl View for Outcome {
    type V = OutcomeV;

    open spec fn view(&self) -> OutcomeV {
        match self {
            Outcome::Pushed(p) => OutcomeV::Pushed(*p),
            Outcome::Removed(r) => OutcomeV::Removed(opt_pair_view(*r)),
        }
    }
}

/// The model's list after an action: a push replaces the key's pair in
/// place or appends it; a removal drops the key's pair.
pub open spec fn apply_to_list(s: Seq<(i32, Seq<char>)>, a: Action) -> Seq<(i32, Seq<char>)> {
    match a {
        Action::Push(p, k) => if has_key(s, k@) {
            s.update(index_of(s, k@), (p, k@))
        } else {
            s.push((p, k@))
        },
        Action::Remove(k) => if has_key(s, k@) {
            s.remove(index_of(s, k@))
        } else {
            s
        },
    }
}

/// The association after an action on `m`.
pub open spec fn apply_action(m: Map<Seq<char>, i32>, a: Action) -> Map<Seq<char>, i32> {
    match a {
        Action::Push(p, k) => m.insert(k@, p),
        Action::Remove(k) => m.remove(k@),
    }
}

/// The observable result of an action on `m`.
pub open spec fn action_result(m: Map<Seq<char>, i32>, a: Action) -> OutcomeV {
    match a {
        Action::Push(_, k) => OutcomeV::Pushed(push_result(m, k@)),
        Action::Remove(k) => OutcomeV::Removed(remove_result(m, k@)),
    }
}

/// Whether two outcomes are the same observable value.
pub fn same_outcome(a: &Outcome, b: &Outcome) -> (r: bool)
    ensures
        r == (a@ == b@),
{
    match (a, b) {
        (Outcome::Pushed(x), Outcome::Pushed(y)) => match (x, y) {
            (Some(p), Some(q)) => *p == *q,
            (None, None) => true,
            _ => false,
        },
        (Outcome::Removed(x), Outcome::Removed(y)) => match (x, y) {
            (Some(p), Some(q)) => p.0 == q.0 && p.1 == q.1,
            (None, None) => true,
            _ => false,
        },
        _ => false,
    }
}

/// Every action of this domain is admissible in every state: removing an
/// absent key has a defined result.
pub fn pre_condition(model: &PqueueModel, action: &Action) -> (r: bool)
    ensures
        r,
{
    match action {
        Action::Push(_, _) => true,
        Action::Remove(_) => true,
    }
}

/// Compares two results of one action; a mismatch is a divergence.
pub fn check_result(action: &Action, model_result: Outcome, actual_result: Outcome) -> (r: Result<
    (),
    Divergence<Action, Outcome>,
>)
    ensures
        r is Ok <==> model_result@ == actual_result@,
        r matches Err(d) ==> d.action == *action && d.model_result == model_result
            && d.system_result == actual_result,
{
    if !same_outcome(&model_result, &actual_result) {
        Err(Divergence { action: action.duplicate(), model_result, system_result: actual_result })
    } else {
        Ok(())
    }
}

/// Applies one action to the model and to the queue and compares what they return.
pub fn apply_and_check_result(
    action: &Action,
    model: &mut PqueueModel,
    actual: &mut Queue,
) -> (r: Result<(), Divergence<Action, Outcome>>)
    requires
        old(model).wf(),
    ensures
        final(model).wf(),
        final(model)@ == apply_to_list(old(model)@, *action),
        as_map(final(model)@) == apply_action(as_map(old(model)@), *action),
        queue_contents(*final(actual)) == apply_action(queue_contents(*old(actual)), *action),
        r is Ok <==> action_result(as_map(old(model)@), *action) == action_result(
            queue_contents(*old(actual)),
            *action,
        ),
        r matches Err(d) ==> d.action == *action && d.model_result@ == action_result(
            as_map(old(model)@),
            *action,
        ) && d.system_result@ == action_result(queue_contents(*old(actual)), *action),
        as_map(old(model)@) == queue_contents(*old(actual)) ==> r is Ok && as_map(final(model)@)
            == queue_contents(*final(actual)),
{
    match action {
        Action::Push(prio, item) => {
            let m = model.push(item.clone(), *prio);
            let a = queue_push(actual, item.clone(), *prio);
            check_result(action, Outcome::Pushed(m), Outcome::Pushed(a))
        },
        Action::Remove(item) => {
            let m = model.remove(item.as_str());
            let a = queue_remove(actual, item.as_str());
            check_result(action, Outcome::Removed(m), Outcome::Removed(a))
        },
    }
}

/// Replays `actions` against a fresh model and a fresh queue, stopping at
/// the first divergence. The two start equal and stay in lock-step, so the
/// replay always succeeds.
pub fn run_sequence(actions: &Vec<Action>) -> (r: Result<(), Report<Action, Outcome>>)
    ensures
        r is Ok,
{
    let mut model = PqueueModel::new();
    let mut actual = new_queue();
    proof {
        assert(as_map(model@) =~= queue_contents(actual));
    }
    let mut i: usize = 0;
    while i < actions.len()
        invariant
            i <= actions.len(),
            model.wf(),
            as_map(model@) == queue_contents(actual),
        decreases actions.len() - i,
    {
        let res = apply_and_check_result(&actions[i], &mut model, &mut actual);
        if let Err(d) = res {
            return Err(Report { failing_index: i, divergence: d });
        }
        i = i + 1;
    }
    Ok(())
}

/// The priority-map domain as a pluggable triple.
pub struct PqDomain;

impl ModelProps<PqueueModel, Action, Queue> for PqDomain {
    type Outcome = Outcome;

    open spec fn model_wf(model: PqueueModel) -> bool {
        model.wf()
    }

    open spec fn step_ok(action: Action, model: PqueueModel, system: Queue) -> bool {
        action_result(as_map(model@), action) == action_result(queue_contents(system), action)
    }

    open spec fn stepped(
        action: Action,
        model: PqueueModel,
        system: Queue,
        model2: PqueueModel,
        system2: Queue,
    ) -> bool {
        &&& model2@ == apply_to_list(model@, action)
        &&& as_map(model2@) == apply_action(as_map(model@), action)
        &&& queue_contents(system2) == apply_action(queue_contents(system), action)
    }

    open spec fn reports(action: Action, model: PqueueModel, system: Queue, d: Divergence<Action, Outcome>) -> bool {
        &&& d.action == action
        &&& d.model_result@ == action_result(as_map(model@), action)
        &&& d.system_result@ == action_result(queue_contents(system), action)
    }

    fn initial_model() -> (m: PqueueModel) {
        PqueueModel::new()
    }

    fn check_precondition(action: &Action, model: &PqueueModel) -> bool {
        pre_condition(model, action)
    }

    fn apply_action_and_check_result(action: Action, model: &mut PqueueModel, system: &mut Queue) -> (r:
        Result<(), Divergence<Action, Outcome>>) {
        apply_and_check_result(&action, model, system)
    }
}

} // verus!
