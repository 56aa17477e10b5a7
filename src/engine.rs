//! Domain-independent parts of a conformance run: what a divergence is and
//! how one is reported.

use vstd::prelude::*;

verus! {

/// A disagreement between model and system on one action.
#[derive(Debug, Clone)]
pub struct Divergence<A, R> {
    pub action: A,
    pub model_result: R,
    pub system_result: R,
}

/// What a failed replay reports: where the first divergence came, and what it was.
#[derive(Debug, Clone)]
pub struct Report<A, R> {
    pub failing_index: usize,
    pub divergence: Divergence<A, R>,
}

/// What a (model, action, system) triple provides to be checked by the
/// engine: a starting model, an admissibility test, and a step that applies
/// one action to both sides and compares their results.
pub trait ModelProps<M, A, S> {
    /// The observable result of one action.
    type Outcome;

    /// The model's well-formedness, kept by every step.
    spec fn model_wf(model: M) -> bool;

    /// The step on `action` from `model` and `system` finds the two results equal.
    spec fn step_ok(action: A, model: M, system: S) -> bool;

    /// `model2` and `system2` are what the step on `action` leaves of `model`
    /// and `system`: the action applied once to each.
    spec fn stepped(action: A, model: M, system: S, model2: M, system2: S) -> bool;

    /// `d` describes the disagreement of the step on `action` from `model` and `system`.
    spec fn reports(action: A, model: M, system: S, d: Divergence<A, Self::Outcome>) -> bool;

    fn initial_model() -> (m: M)
        ensures
            Self::model_wf(m),
    ;

    fn check_precondition(action: &A, model: &M) -> bool;

    fn apply_action_and_check_result(action: A, model: &mut M, system: &mut S) -> (r: Result<
        (),
        Divergence<A, Self::Outcome>,
    >)
        requires
            Self::model_wf(*old(model)),
        ensures
            Self::model_wf(*final(model)),
            r is Ok <==> Self::step_ok(action, *old(model), *old(system)),
            Self::stepped(action, *old(model), *old(system), *final(model), *final(system)),
            r matches Err(d) ==> Self::reports(action, *old(model), *old(system), d),
    ;
}

/// `ms` and `ss` are the model and system states of the first `k` steps of
/// replaying `acts`: `ms[i + 1]` and `ss[i + 1]` are what step `i` left.
pub open spec fn run_trace<M, A, S, T: ModelProps<M, A, S>>(
    acts: Seq<A>,
    ms: Seq<M>,
    ss: Seq<S>,
    k: int,
) -> bool {
    &&& 0 <= k <= acts.len()
    &&& ms.len() == k + 1
    &&& ss.len() == k + 1
    &&& forall|i: int| 0 <= i < k ==> #[trigger] T::stepped(acts[i], ms[i], ss[i], ms[i + 1], ss[i + 1])
}

/// The first `k` steps along the trace found no divergence.
pub open spec fn steps_ok<M, A, S, T: ModelProps<M, A, S>>(
    acts: Seq<A>,
    ms: Seq<M>,
    ss: Seq<S>,
    k: int,
) -> bool {
    forall|i: int| 0 <= i < k ==> #[trigger] T::step_ok(acts[i], ms[i], ss[i])
}

/// Along the trace, steps before `f` agreed, and step `f` disagreed and
/// reported `d`.
pub open spec fn stops_at<M, A, S, T: ModelProps<M, A, S>>(
    acts: Seq<A>,
    ms: Seq<M>,
    ss: Seq<S>,
    f: int,
    d: Divergence<A, T::Outcome>,
) -> bool {
    &&& run_trace::<M, A, S, T>(acts, ms, ss, f + 1)
    &&& steps_ok::<M, A, S, T>(acts, ms, ss, f)
    &&& !T::step_ok(acts[f], ms[f], ss[f])
    &&& T::reports(acts[f], ms[f], ss[f], d)
}

/// Replays `actions` in order on `model` and `system`, each step on the
/// states the one before left, stopping at the first divergence. `Ok` means
/// every step agreed; `Err` names the first step that did not, with what it
/// reported.
pub fn replay<M, A, S, T: ModelProps<M, A, S>>(actions: Vec<A>, model: &mut M, system: &mut S) -> (r:
    Result<(), Report<A, T::Outcome>>)
    requires
        T::model_wf(*old(model)),
    ensures
        T::model_wf(*final(model)),
        r is Ok ==> exists|ms: Seq<M>, ss: Seq<S>|
            #[trigger] run_trace::<M, A, S, T>(actions@, ms, ss, actions@.len() as int) && steps_ok::<
                M,
                A,
                S,
                T,
            >(actions@, ms, ss, actions@.len() as int) && ms[0] == *old(model) && ss[0] == *old(system)
                && ms.last() == *final(model) && ss.last() == *final(system),
        r matches Err(rep) ==> rep.failing_index < actions.len() && exists|ms: Seq<M>, ss: Seq<S>|
            #[trigger] stops_at::<M, A, S, T>(actions@, ms, ss, rep.failing_index as int, rep.divergence)
                && ms[0] == *old(model) && ss[0] == *old(system) && ms.last() == *final(model)
                && ss.last() == *final(system),
{
    let ghost m0 = *model;
    let ghost s0 = *system;
    let ghost mut ms: Seq<M> = seq![*model];
    let ghost mut ss: Seq<S> = seq![*system];
    let n = actions.len();
    let mut rest = actions;
    let mut i: usize = 0;
    while i < n
        invariant
            T::model_wf(*model),
            n == actions.len(),
            i <= n,
            rest@ == actions@.skip(i as int),
            run_trace::<M, A, S, T>(actions@, ms, ss, i as int),
            steps_ok::<M, A, S, T>(actions@, ms, ss, i as int),
            ms[0] == m0,
            ss[0] == s0,
            m0 == *old(model),
            s0 == *old(system),
            ms.last() == *model,
            ss.last() == *system,
        decreases n - i,
    {
        let ghost mp = *model;
        let ghost sp = *system;
        let a = rest.remove(0);
        assert(a == actions@[i as int]);
        let res = T::apply_action_and_check_result(a, model, system);
        proof {
            ms = ms.push(*model);
            ss = ss.push(*system);
            assert(ms[i as int] == mp && ss[i as int] == sp);
            assert(rest@ == actions@.skip(i + 1));
        }
        if let Err(d) = res {
            let rep = Report { failing_index: i, divergence: d };
            proof {
                assert(steps_ok::<M, A, S, T>(actions@, ms, ss, i as int)) by {
                    assert forall|j: int| 0 <= j < i implies #[trigger] T::step_ok(actions@[j], ms[j], ss[j]) by {
                        assert(ms[j] == ms.drop_last()[j] && ss[j] == ss.drop_last()[j]);
                    }
                }
                assert(!T::step_ok(actions@[i as int], ms[i as int], ss[i as int]));
                assert(T::reports(actions@[i as int], ms[i as int], ss[i as int], rep.divergence));
                assert(stops_at::<M, A, S, T>(actions@, ms, ss, i as int, rep.divergence));
                assert(ms[0] == *old(model) && ss[0] == *old(system));
                assert(ms.last() == *model && ss.last() == *system);
            }
            let out: Result<(), Report<A, T::Outcome>> = Err(rep);
            assert(out matches Err(x) ==> x.failing_index < actions.len() && exists|ms2: Seq<M>, ss2: Seq<S>|
                    #[trigger] stops_at::<M, A, S, T>(actions@, ms2, ss2, x.failing_index as int, x.divergence)
                        && ms2[0] == *old(model) && ss2[0] == *old(system) && ms2.last() == *model
                        && ss2.last() == *system);
            return out;
        }
        i = i + 1;
    }
    assert(run_trace::<M, A, S, T>(actions@, ms, ss, actions@.len() as int));
    Ok(())
}

} // verus!
