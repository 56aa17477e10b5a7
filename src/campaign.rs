//! Campaigns over the set domain: seeded generation of action sequences,
//! replay through a caller-supplied check, and shrinking of the first
//! failing sequence.

use vstd::prelude::*;
use crate::engine::Report;
use crate::rng::{Rng, next_state, draw_below};
use crate::set_domain::Action;

verus! {

/// How sequences are generated and how many are run.
#[derive(Debug, Clone, Copy)]
pub struct CampaignConfig {
    /// Number of sequences per campaign.
    pub case_count: usize,
    /// Shortest sequence length.
    pub min_len: u32,
    /// Longest sequence length.
    pub max_len: u32,
    /// Seed of the generator.
    pub seed: u64,
    /// Relative weight of `Insert`.
    pub insert_weight: u32,
    /// Relative weight of `Remove`.
    pub remove_weight: u32,
    /// Relative weight of `Contains`.
    pub contains_weight: u32,
    /// Operands are drawn from `[0, max_val)`.
    pub max_val: u32,
}

impl CampaignConfig {
    /// Some kind can be drawn, some operand can be drawn, and the length
    /// range is not empty.
    pub open spec fn wf(&self) -> bool {
        &&& self.min_len <= self.max_len < u32::MAX
        &&& 0 < self.insert_weight as int + self.remove_weight as int + self.contains_weight as int
            <= u32::MAX
        &&& self.max_val > 0
    }

    pub open spec fn total_weight(&self) -> u32 {
        (self.insert_weight + self.remove_weight + self.contains_weight) as u32
    }
}

/// The action of kind draw `k` with operand `v`.
pub open spec fn kind_action(cfg: CampaignConfig, k: u32, v: u32) -> Action {
    if k < cfg.insert_weight {
        Action::Insert(v)
    } else if k < cfg.insert_weight + cfg.remove_weight {
        Action::Remove(v)
    } else {
        Action::Contains(v)
    }
}

/// The action drawn from state `s`, and the state after it.
pub open spec fn gen_action_spec(cfg: CampaignConfig, s: u64) -> (Action, u64) {
    let k = draw_below(s, cfg.total_weight());
    let s1 = next_state(s);
    let v = draw_below(s1, cfg.max_val);
    (kind_action(cfg, k, v), next_state(s1))
}

/// `n` actions drawn from state `s`, and the state after them.
pub open spec fn gen_actions(cfg: CampaignConfig, s: u64, n: nat) -> (Seq<Action>, u64)
    decreases n,
{
    if n == 0 {
        (Seq::empty(), s)
    } else {
        let p = gen_actions(cfg, s, (n - 1) as nat);
        let q = gen_action_spec(cfg, p.1);
        (p.0.push(q.0), q.1)
    }
}

/// The length drawn from state `s`.
pub open spec fn gen_len(cfg: CampaignConfig, s: u64) -> nat {
    (cfg.min_len + draw_below(s, (cfg.max_len - cfg.min_len + 1) as u32)) as nat
}

/// The sequence drawn from state `s`: first its length, then its actions.
pub open spec fn gen_sequence(cfg: CampaignConfig, s: u64) -> (Seq<Action>, u64) {
    gen_actions(cfg, next_state(s), gen_len(cfg, s))
}

/// The generator state at the start of case `i`.
pub open spec fn case_state(cfg: CampaignConfig, i: nat) -> u64
    decreases i,
{
    if i == 0 {
        cfg.seed
    } else {
        gen_sequence(cfg, case_state(cfg, (i - 1) as nat)).1
    }
}

/// The sequence of case `i` of a campaign.
#[verifier::opaque]
pub open spec fn case_seq(cfg: CampaignConfig, i: nat) -> Seq<Action> {
    gen_sequence(cfg, case_state(cfg, i)).0
}

/// Draws one action.
pub fn gen_action(rng: &mut Rng, cfg: &CampaignConfig) -> (r: Action)
    requires
        cfg.wf(),
    ensures
        (r, final(rng)@) == gen_action_spec(*cfg, old(rng)@),
{
    let total = cfg.insert_weight + cfg.remove_weight + cfg.contains_weight;
    let k = rng.below(total);
    let v = rng.below(cfg.max_val);
    if k < cfg.insert_weight {
        Action::Insert(v)
    } else if k < cfg.insert_weight + cfg.remove_weight {
        Action::Remove(v)
    } else {
        Action::Contains(v)
    }
}

/// Draws one sequence: its length uniformly from the configured range,
/// then each action independently.
pub fn generate_sequence(rng: &mut Rng, cfg: &CampaignConfig) -> (r: Vec<Action>)
    requires
        cfg.wf(),
    ensures
        (r@, final(rng)@) == gen_sequence(*cfg, old(rng)@),
{
    let len = cfg.min_len + rng.below(cfg.max_len - cfg.min_len + 1);
    let mut out: Vec<Action> = Vec::new();
    let mut i: u32 = 0;
    while i < len
        invariant
            cfg.wf(),
            i <= len,
            len as nat == gen_len(*cfg, old(rng)@),
            (out@, rng@) == gen_actions(*cfg, next_state(old(rng)@), i as nat),
        decreases len - i,
    {
        let a = gen_action(rng, cfg);
        out.push(a);
        i = i + 1;
    }
    out
}

/// The operand of an action.
pub open spec fn operand(a: Action) -> u32 {
    match a {
        Action::Insert(v) => v,
        Action::Remove(v) => v,
        Action::Contains(v) => v,
    }
}

/// The place of an action's variant in the order `Insert`, `Remove`, `Contains`.
pub open spec fn rank(a: Action) -> nat {
    match a {
        Action::Insert(_) => 0,
        Action::Remove(_) => 1,
        Action::Contains(_) => 2,
    }
}

/// How complex an action is: its operand plus the place of its variant.
pub open spec fn weight(a: Action) -> nat {
    operand(a) as nat + rank(a)
}

/// The simplification of kind `j` of an action: `0` sets the operand to 0,
/// `1` halves it, `2` turns the action into an `Insert`, `3` into a `Remove`,
/// each keeping what it does not name.
pub open spec fn simplified(a: Action, j: int) -> Action {
    if j == 0 {
        match a {
            Action::Insert(_) => Action::Insert(0),
            Action::Remove(_) => Action::Remove(0),
            Action::Contains(_) => Action::Contains(0),
        }
    } else if j == 1 {
        match a {
            Action::Insert(v) => Action::Insert(v / 2),
            Action::Remove(v) => Action::Remove(v / 2),
            Action::Contains(v) => Action::Contains(v / 2),
        }
    } else if j == 2 {
        Action::Insert(operand(a))
    } else {
        Action::Remove(operand(a))
    }
}

/// Simplification `j` of `a` is a strictly simpler action.
pub open spec fn strictly_simpler(a: Action, j: int) -> bool {
    weight(simplified(a, j)) < weight(a)
}

/// The sum of the weights of a sequence.
pub open spec fn weight_total(s: Seq<Action>) -> nat
    decreases s.len(),
{
    if s.len() == 0 {
        0
    } else {
        weight_total(s.drop_last()) + weight(s.last())
    }
}

/// Some run of `check` on a sequence holding `s` was seen to fail.
pub open spec fn observed_fail<F: Fn(&Vec<Action>) -> Result<(), Report<Action, bool>>>(
    check: F,
    s: Seq<Action>,
) -> bool {
    exists|v: Vec<Action>, e: Report<Action, bool>|
        v@ == s && #[trigger] call_ensures(check, (&v,), Err::<(), Report<Action, bool>>(e))
}

/// Some run of `check` on a sequence holding `s` was seen to pass.
pub open spec fn observed_pass<F: Fn(&Vec<Action>) -> Result<(), Report<Action, bool>>>(
    check: F,
    s: Seq<Action>,
) -> bool {
    exists|v: Vec<Action>, r: Result<(), Report<Action, bool>>|
        v@ == s && #[trigger] call_ensures(check, (&v,), r) && r is Ok
}

/// The sequence without its action at `i`.
fn without(v: &Vec<Action>, i: usize) -> (r: Vec<Action>)
    requires
        i < v.len(),
    ensures
        r@ == v@.remove(i as int),
{
    let mut out: Vec<Action> = Vec::new();
    let mut j: usize = 0;
    while j < v.len()
        invariant
            i < v.len(),
            j <= v.len(),
            out@ == (if j <= i { v@.take(j as int) } else { v@.take(j as int).remove(i as int) }),
        decreases v.len() - j,
    {
        if j != i {
            out.push(v[j]);
        }
        proof {
            if j < i {
                assert(v@.take(j + 1) == v@.take(j as int).push(v@[j as int]));
            } else if j > i {
                assert(v@.take(j + 1).remove(i as int) == v@.take(j as int).remove(i as int).push(v@[j as int]));
            } else {
                assert(v@.take(j + 1).remove(i as int) == v@.take(j as int));
            }
        }
        j = j + 1;
    }
    assert(v@.take(v.len() as int) == v@);
    out
}

/// Simplification `j` of an action.
fn simplify_exec(a: Action, j: u8) -> (r: Action)
    ensures
        r == simplified(a, j as int),
{
    let v = match a {
        Action::Insert(x) => x,
        Action::Remove(x) => x,
        Action::Contains(x) => x,
    };
    if j == 0 {
        match a {
            Action::Insert(_) => Action::Insert(0),
            Action::Remove(_) => Action::Remove(0),
            Action::Contains(_) => Action::Contains(0),
        }
    } else if j == 1 {
        match a {
            Action::Insert(x) => Action::Insert(x / 2),
            Action::Remove(x) => Action::Remove(x / 2),
            Action::Contains(x) => Action::Contains(x / 2),
        }
    } else if j == 2 {
        Action::Insert(v)
    } else {
        Action::Remove(v)
    }
}

/// The weight of an action.
fn weight_exec(a: Action) -> (r: u64)
    ensures
        r == weight(a),
{
    match a {
        Action::Insert(x) => x as u64,
        Action::Remove(x) => x as u64 + 1,
        Action::Contains(x) => x as u64 + 2,
    }
}

/// The sequence with its action at `i` replaced by `a`.
fn with_replaced(v: &Vec<Action>, i: usize, a: Action) -> (r: Vec<Action>)
    requires
        i < v.len(),
    ensures
        r@ == v@.update(i as int, a),
{
    let mut out: Vec<Action> = Vec::new();
    let mut j: usize = 0;
    while j < v.len()
        invariant
            i < v.len(),
            j <= v.len(),
            out@ == v@.update(i as int, a).take(j as int),
        decreases v.len() - j,
    {
        if j == i {
            out.push(a);
        } else {
            out.push(v[j]);
        }
        proof {
            assert(v@.update(i as int, a).take(j + 1) == out@);
        }
        j = j + 1;
    }
    out
}

proof fn lemma_total_update(s: Seq<Action>, i: int, a: Action)
    requires
        0 <= i < s.len(),
    ensures
        weight_total(s.update(i, a)) + weight(s[i]) == weight_total(s) + weight(a),
    decreases s.len(),
{
    let t = s.update(i, a);
    if i == s.len() - 1 {
        assert(t.drop_last() == s.drop_last());
    } else {
        assert(t.drop_last() == s.drop_last().update(i, a));
        lemma_total_update(s.drop_last(), i, a);
    }
}

proof fn lemma_total_remove(s: Seq<Action>, i: int)
    requires
        0 <= i < s.len(),
    ensures
        weight_total(s.remove(i)) + weight(s[i]) == weight_total(s),
    decreases s.len(),
{
    let t = s.remove(i);
    if i == s.len() - 1 {
        assert(t == s.drop_last());
    } else {
        assert(t.drop_last() == s.drop_last().remove(i));
        assert(t.last() == s.last());
        lemma_total_remove(s.drop_last(), i);
    }
}

/// The size that shrinking reduces: the length plus the weights.
pub open spec fn shrink_measure(s: Seq<Action>) -> nat {
    s.len() + weight_total(s)
}

/// No single removal and no single strict simplification of one action of
/// `s` was seen to fail: each was run and passed.
pub open spec fn locally_minimal<F: Fn(&Vec<Action>) -> Result<(), Report<Action, bool>>>(
    check: F,
    s: Seq<Action>,
) -> bool {
    &&& forall|i: int| 0 <= i < s.len() ==> observed_pass(check, #[trigger] s.remove(i))
    &&& forall|i: int, j: int|
        0 <= i < s.len() && 0 <= j < 4 && strictly_simpler(s[i], j) ==> observed_pass(
            check,
            s.update(i, #[trigger] simplified(s[i], j)),
        )
}

/// Shrinks a failing sequence: removes single actions and simplifies single
/// actions (operand to 0, operand halved, variant moved earlier), keeping
/// each candidate that still fails, until a whole sweep changes nothing.
/// Returns the last failing sequence and its report.
pub fn shrink<F: Fn(&Vec<Action>) -> Result<(), Report<Action, bool>>>(
    seq: Vec<Action>,
    first: Report<Action, bool>,
    check: &F,
) -> (r: (Vec<Action>, Report<Action, bool>))
    requires
        forall|v: &Vec<Action>| call_requires(*check, (v,)),
        call_ensures(*check, (&seq,), Err::<(), Report<Action, bool>>(first)),
    ensures
        call_ensures(*check, (&r.0,), Err::<(), Report<Action, bool>>(r.1)),
        r.0.len() <= seq.len(),
        r.0@ == seq@ || shrink_measure(r.0@) < shrink_measure(seq@),
        locally_minimal(*check, r.0@),
{
    let mut cur = seq;
    let mut rep = first;
    loop
        invariant
            forall|v: &Vec<Action>| call_requires(*check, (v,)),
            call_ensures(*check, (&cur,), Err::<(), Report<Action, bool>>(rep)),
            cur.len() <= seq.len(),
            cur@ == seq@ || shrink_measure(cur@) < shrink_measure(seq@),
        decreases shrink_measure(cur@),
    {
        let ghost start = cur@;
        let mut changed = false;
        let mut i: usize = 0;
        while i < cur.len()
            invariant
                forall|v: &Vec<Action>| call_requires(*check, (v,)),
                call_ensures(*check, (&cur,), Err::<(), Report<Action, bool>>(rep)),
                cur.len() <= seq.len(),
                i <= cur.len(),
                !changed ==> cur@ == start,
                changed ==> shrink_measure(cur@) < shrink_measure(start),
                !changed ==> forall|j: int| 0 <= j < i ==> observed_pass(*check, #[trigger] cur@.remove(j)),
            decreases cur.len() - i,
        {
            let cand = without(&cur, i);
            let res = (*check)(&cand);
            match res {
                Err(e) => {
                    proof {
                        lemma_total_remove(cur@, i as int);
                    }
                    cur = cand;
                    rep = e;
                    changed = true;
                },
                Ok(()) => {
                    assert(observed_pass(*check, cur@.remove(i as int)));
                    i = i + 1;
                },
            }
        }
        let ghost n = cur.len();
        let mut i: usize = 0;
        while i < cur.len()
            invariant
                forall|v: &Vec<Action>| call_requires(*check, (v,)),
                call_ensures(*check, (&cur,), Err::<(), Report<Action, bool>>(rep)),
                cur.len() <= seq.len(),
                cur.len() == n,
                i <= cur.len(),
                !changed ==> cur@ == start,
                changed ==> shrink_measure(cur@) < shrink_measure(start),
                !changed ==> forall|j: int| 0 <= j < cur.len() ==> observed_pass(*check, #[trigger] cur@.remove(j)),
                !changed ==> forall|i2: int, j2: int|
                    0 <= i2 < i && 0 <= j2 < 4 && strictly_simpler(cur@[i2], j2) ==> observed_pass(
                        *check,
                        cur@.update(i2, #[trigger] simplified(cur@[i2], j2)),
                    ),
            decreases cur.len() - i,
        {
            let mut j: u8 = 0;
            while j < 4
                invariant
                    forall|v: &Vec<Action>| call_requires(*check, (v,)),
                    call_ensures(*check, (&cur,), Err::<(), Report<Action, bool>>(rep)),
                    cur.len() <= seq.len(),
                    cur.len() == n,
                    i < cur.len(),
                    j <= 4,
                    !changed ==> cur@ == start,
                    changed ==> shrink_measure(cur@) < shrink_measure(start),
                    !changed ==> forall|k: int| 0 <= k < cur.len() ==> observed_pass(*check, #[trigger] cur@.remove(k)),
                    !changed ==> forall|i2: int, j2: int|
                        0 <= i2 < i && 0 <= j2 < 4 && strictly_simpler(cur@[i2], j2) ==> observed_pass(
                            *check,
                            cur@.update(i2, #[trigger] simplified(cur@[i2], j2)),
                        ),
                    !changed ==> forall|j2: int|
                        0 <= j2 < j && strictly_simpler(cur@[i as int], j2) ==> observed_pass(
                            *check,
                            cur@.update(i as int, #[trigger] simplified(cur@[i as int], j2)),
                        ),
                decreases 4 - j,
            {
                let a = simplify_exec(cur[i], j);
                if weight_exec(a) < weight_exec(cur[i]) {
                    let cand = with_replaced(&cur, i, a);
                    let res = (*check)(&cand);
                    match res {
                        Err(e) => {
                            proof {
                                lemma_total_update(cur@, i as int, a);
                            }
                            cur = cand;
                            rep = e;
                            changed = true;
                        },
                        Ok(()) => {
                            assert(observed_pass(*check, cur@.update(i as int, a)));
                        },
                    }
                }
                j = j + 1;
            }
            i = i + 1;
        }
        if !changed {
            return (cur, rep);
        }
    }
}

/// What a failed campaign reports.
#[derive(Debug)]
pub struct FailureReport {
    /// Which case of the campaign failed first.
    pub case_index: usize,
    /// The seed the campaign was run with.
    pub seed: u64,
    /// The generated sequence that failed.
    pub original: Vec<Action>,
    /// The shrunk sequence that still fails.
    pub sequence: Vec<Action>,
    /// The divergence that the shrunk sequence produced.
    pub divergence: Report<Action, bool>,
}

/// The end state of a campaign.
#[derive(Debug)]
pub enum CampaignOutcome {
    Success { cases_run: usize, seed: u64 },
    Failed(FailureReport),
}

/// What a finished campaign over `cfg` and `check` says: on success, every
/// case was run and passed; on failure, the cases before the failing one
/// passed, the failing one is the generated sequence, and the reported
/// sequence still fails and is locally minimal.
pub open spec fn campaign_result<F: Fn(&Vec<Action>) -> Result<(), Report<Action, bool>>>(
    cfg: CampaignConfig,
    check: F,
    r: CampaignOutcome,
) -> bool {
    &&& (r matches CampaignOutcome::Success { cases_run, seed } ==> {
        &&& cases_run == cfg.case_count
        &&& seed == cfg.seed
        &&& forall|i: int| 0 <= i < cfg.case_count ==> observed_pass(check, #[trigger] case_seq(cfg, i as nat))
    })
    &&& (r matches CampaignOutcome::Failed(rep) ==> {
        &&& rep.case_index < cfg.case_count
        &&& rep.seed == cfg.seed
        &&& forall|i: int| 0 <= i < rep.case_index ==> observed_pass(check, #[trigger] case_seq(cfg, i as nat))
        &&& rep.original@ == case_seq(cfg, rep.case_index as nat)
        &&& observed_fail(check, rep.original@)
        &&& call_ensures(check, (&rep.sequence,), Err::<(), Report<Action, bool>>(rep.divergence))
        &&& rep.sequence.len() <= rep.original.len()
        &&& locally_minimal(check, rep.sequence@)
    })
}

/// A check whose verdict depends on the contents of the sequence alone.
#[verifier::opaque]
pub open spec fn deterministic<F: Fn(&Vec<Action>) -> Result<(), Report<Action, bool>>>(check: F) -> bool {
    forall|v1: &Vec<Action>, v2: &Vec<Action>, r1: Result<(), Report<Action, bool>>, r2: Result<
        (),
        Report<Action, bool>,
    >|
        v1@ == v2@ && #[trigger] call_ensures(check, (v1,), r1) && #[trigger] call_ensures(check, (v2,), r2)
            ==> (r1 is Ok <==> r2 is Ok)
}

proof fn lemma_pass_excludes_fail<F: Fn(&Vec<Action>) -> Result<(), Report<Action, bool>>>(
    check: F,
    s: Seq<Action>,
)
    requires
        deterministic(check),
        observed_pass(check, s),
    ensures
        !observed_fail(check, s),
{
    if observed_fail(check, s) {
        lemma_pass_fail_conflict(check, s);
    }
}

proof fn lemma_pass_fail_conflict<F: Fn(&Vec<Action>) -> Result<(), Report<Action, bool>>>(
    check: F,
    s: Seq<Action>,
)
    requires
        deterministic(check),
        observed_pass(check, s),
        observed_fail(check, s),
    ensures
        !deterministic(check),
{
    reveal(deterministic);
    let (v1, r1) = choose|v: Vec<Action>, r: Result<(), Report<Action, bool>>|
        v@ == s && #[trigger] call_ensures(check, (&v,), r) && r is Ok;
    let (v2, e2) = choose|v: Vec<Action>, e: Report<Action, bool>|
        v@ == s && #[trigger] call_ensures(check, (&v,), Err::<(), Report<Action, bool>>(e));
    let r2 = Err::<(), Report<Action, bool>>(e2);
    assert(call_ensures(check, (&v1,), r1) && call_ensures(check, (&v2,), r2));
}

/// Two campaigns with the same configuration and a deterministic check end
/// alike: both succeed, or both fail on the same case with the same
/// generated sequence.
pub proof fn lemma_campaign_deterministic<F: Fn(&Vec<Action>) -> Result<(), Report<Action, bool>>>(
    cfg: CampaignConfig,
    check: F,
    o1: CampaignOutcome,
    o2: CampaignOutcome,
)
    requires
        deterministic(check),
        campaign_result(cfg, check, o1),
        campaign_result(cfg, check, o2),
    ensures
        o1 is Success <==> o2 is Success,
        o1 is Success ==> o1 == o2,
        o1 matches CampaignOutcome::Failed(a) ==> o2 matches CampaignOutcome::Failed(b) && a.case_index
            == b.case_index && a.original@ == b.original@,
{
    match (o1, o2) {
        (CampaignOutcome::Failed(a), CampaignOutcome::Success { cases_run, seed }) => {
            let k = a.case_index as int;
            assert(0 <= k < cfg.case_count);
            assert(observed_pass(check, case_seq(cfg, k as nat)));
            lemma_pass_excludes_fail(check, case_seq(cfg, k as nat));
        },
        (CampaignOutcome::Success { cases_run, seed }, CampaignOutcome::Failed(b)) => {
            let k = b.case_index as int;
            assert(0 <= k < cfg.case_count);
            assert(observed_pass(check, case_seq(cfg, k as nat)));
            lemma_pass_excludes_fail(check, case_seq(cfg, k as nat));
        },
        (CampaignOutcome::Failed(a), CampaignOutcome::Failed(b)) => {
            if a.case_index < b.case_index {
                let k = a.case_index as int;
                assert(observed_pass(check, case_seq(cfg, k as nat)));
                lemma_pass_excludes_fail(check, case_seq(cfg, k as nat));
            } else if b.case_index < a.case_index {
                let k = b.case_index as int;
                assert(observed_pass(check, case_seq(cfg, k as nat)));
                lemma_pass_excludes_fail(check, case_seq(cfg, k as nat));
            }
        },
        _ => {},
    }
}

/// Runs `cfg.case_count` generated sequences through `check`, in order. On
/// the first that fails, shrinks it and reports; otherwise reports success.
/// Every set action is admissible in every state, so no candidate is filtered.
pub fn run_campaign<F: Fn(&Vec<Action>) -> Result<(), Report<Action, bool>>>(
    cfg: &CampaignConfig,
    check: &F,
) -> (r: CampaignOutcome)
    requires
        cfg.wf(),
        forall|v: &Vec<Action>| call_requires(*check, (v,)),
    ensures
        campaign_result(*cfg, *check, r),
{
    let mut rng = Rng::new(cfg.seed);
    let mut i: usize = 0;
    while i < cfg.case_count
        invariant
            cfg.wf(),
            forall|v: &Vec<Action>| call_requires(*check, (v,)),
            i <= cfg.case_count,
            rng@ == case_state(*cfg, i as nat),
            forall|j: int| 0 <= j < i ==> observed_pass(*check, #[trigger] case_seq(*cfg, j as nat)),
        decreases cfg.case_count - i,
    {
        let seq = generate_sequence(&mut rng, cfg);
        proof {
            reveal(case_seq);
        }
        let res = check(&seq);
        match res {
            Err(e) => {
                assert(observed_fail(*check, seq@));
                let ghost orig = seq@;
                let original = copy_actions(&seq);
                let (sequence, divergence) = shrink(seq, e, check);
                return CampaignOutcome::Failed(
                    FailureReport { case_index: i, seed: cfg.seed, original, sequence, divergence },
                );
            },
            Ok(()) => {
                assert(observed_pass(*check, seq@));
                i = i + 1;
            },
        }
    }
    CampaignOutcome::Success { cases_run: cfg.case_count, seed: cfg.seed }
}

/// A copy of a sequence of actions.
pub fn copy_actions(v: &Vec<Action>) -> (r: Vec<Action>)
    ensures
        r@ == v@,
{
    let mut out: Vec<Action> = Vec::new();
    let mut j: usize = 0;
    while j < v.len()
        invariant
            j <= v.len(),
            out@ == v@.take(j as int),
        decreases v.len() - j,
    {
        out.push(v[j]);
        assert(v@.take(j + 1) == out@);
        j = j + 1;
    }
    assert(v@.take(v.len() as int) == v@);
    out
}

} // verus!
