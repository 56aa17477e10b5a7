//! Generation of priority-map action sequences: weighted kinds, priorities
//! in a configured range, keys of one letter from `a` on, and a precondition
//! filter with a retry budget.

use vstd::prelude::*;
use crate::engine::Report;
use crate::pq_domain::{Action, Outcome, PqueueModel, pre_condition, run_sequence};
use crate::rng::{Rng, next_state, draw_below};

verus! {

/// Largest number of distinct keys: the letters `a` to `m`.
pub const MAX_KEYS: u32 = 13;

/// How priority-map actions are drawn.
#[derive(Debug, Clone, Copy)]
pub struct PqGenConfig {
    /// Relative weight of `Push`.
    pub push_weight: u32,
    /// Relative weight of `Remove`.
    pub remove_weight: u32,
    /// Priorities are drawn from `[0, prio_bound)`.
    pub prio_bound: u32,
    /// Keys are the first `key_count` letters from `a`.
    pub key_count: u32,
}

impl PqGenConfig {
    /// Some kind, some priority and some key can be drawn.
    pub open spec fn wf(&self) -> bool {
        &&& 0 < self.push_weight as int + self.remove_weight as int <= u32::MAX
        &&& 0 < self.prio_bound <= i32::MAX
        &&& 0 < self.key_count <= MAX_KEYS
    }
}

/// The key with number `i`.
pub open spec fn key_str(i: u32) -> Seq<char> {
    match i {
        0u32 => "a"@,
        1u32 => "b"@,
        2u32 => "c"@,
        3u32 => "d"@,
        4u32 => "e"@,
        5u32 => "f"@,
        6u32 => "g"@,
        7u32 => "h"@,
        8u32 => "i"@,
        9u32 => "j"@,
        10u32 => "k"@,
        11u32 => "l"@,
        _ => "m"@,
    }
}

/// The key with number `i`, as a string.
pub fn key_name(i: u32) -> (r: String)
    ensures
        r@ == key_str(i),
{
    let s: &str = match i {
        0u32 => "a",
        1u32 => "b",
        2u32 => "c",
        3u32 => "d",
        4u32 => "e",
        5u32 => "f",
        6u32 => "g",
        7u32 => "h",
        8u32 => "i",
        9u32 => "j",
        10u32 => "k",
        11u32 => "l",
        _ => "m",
    };
    s.to_owned()
}

/// `a` is the action drawn from state `s`: a kind, a priority and a key
/// number, drawn in that order.
#[verifier::opaque]
pub open spec fn drawn_from(cfg: PqGenConfig, s: u64, a: Action) -> bool {
    let s1 = next_state(s);
    let s2 = next_state(s1);
    &&& (a is Push <==> draw_below(s, (cfg.push_weight + cfg.remove_weight) as u32) < cfg.push_weight)
    &&& (a matches Action::Push(p, k) ==> p == draw_below(s1, cfg.prio_bound) as i32 && k@ == key_str(
        draw_below(s2, cfg.key_count),
    ))
    &&& (a matches Action::Remove(k) ==> k@ == key_str(draw_below(s2, cfg.key_count)))
}

/// The state after one drawn action.
pub open spec fn after_draw(s: u64) -> u64 {
    next_state(next_state(next_state(s)))
}

/// The state after `n` drawn actions.
pub open spec fn after_draws(s: u64, n: nat) -> u64
    decreases n,
{
    if n == 0 {
        s
    } else {
        after_draw(after_draws(s, (n - 1) as nat))
    }
}

/// Each action of `v` is the one drawn, in turn, from state `s` onward.
pub open spec fn drawn_seq(cfg: PqGenConfig, s: u64, v: Seq<Action>) -> bool {
    forall|i: int| 0 <= i < v.len() ==> drawn_from(cfg, after_draws(s, i as nat), #[trigger] v[i])
}

/// Draws one action: its kind by the configured weights, then a priority
/// and a key.
pub fn gen_action(rng: &mut Rng, cfg: &PqGenConfig) -> (r: Action)
    requires
        cfg.wf(),
    ensures
        drawn_from(*cfg, old(rng)@, r),
        final(rng)@ == after_draw(old(rng)@),
{
    let kind = rng.below(cfg.push_weight + cfg.remove_weight);
    let prio = rng.below(cfg.prio_bound);
    let key = rng.below(cfg.key_count);
    let name = key_name(key);
    proof {
        reveal(drawn_from);
    }
    if kind < cfg.push_weight {
        Action::Push(prio as i32, name)
    } else {
        Action::Remove(name)
    }
}

/// No admissible action was found for a slot within the retry budget.
#[derive(Debug, Clone, Copy, PartialEq, Eq, Structural)]
pub struct GenerationExhausted {
    /// Position in the sequence of the slot that could not be filled.
    pub slot: usize,
    /// How many candidates were drawn and rejected.
    pub attempts: u32,
}

/// Draws candidates until one is admissible against `model`, at most
/// `budget` times.
pub fn gen_admissible_action(rng: &mut Rng, cfg: &PqGenConfig, model: &PqueueModel, budget: u32) -> (r:
    Option<Action>)
    requires
        cfg.wf(),
    ensures
        r is Some <==> budget > 0,
        r matches Some(a) ==> drawn_from(*cfg, old(rng)@, a),
        final(rng)@ == (if budget > 0 { after_draw(old(rng)@) } else { old(rng)@ }),
{
    // Every action of this domain is admissible, so the first candidate is
    // taken; the loop is the general filter.
    let mut tries: u32 = 0;
    while tries < budget
        invariant
            cfg.wf(),
            tries == 0,
            rng@ == old(rng)@,
        decreases budget - tries,
    {
        let a = gen_action(rng, cfg);
        if pre_condition(model, &a) {
            return Some(a);
        }
        tries = tries + 1;
    }
    None
}

/// Draws a sequence of `len` admissible actions, each checked against the
/// model state that the actions before it produce.
pub fn generate_sequence(rng: &mut Rng, cfg: &PqGenConfig, len: usize, budget: u32) -> (r: Result<
    Vec<Action>,
    GenerationExhausted,
>)
    requires
        cfg.wf(),
    ensures
        r is Ok <==> (budget > 0 || len == 0),
        r matches Ok(v) ==> v.len() == len && drawn_seq(*cfg, old(rng)@, v@),
        r matches Err(e) ==> e.slot == 0 && e.attempts == budget,
{
    let mut model = PqueueModel::new();
    let mut out: Vec<Action> = Vec::new();
    let mut i: usize = 0;
    while i < len
        invariant
            i <= len,
            out.len() == i,
            rng@ == after_draws(old(rng)@, i as nat),
            drawn_seq(*cfg, old(rng)@, out@),
            cfg.wf(),
            model.wf(),
            i > 0 ==> budget > 0,
        decreases len - i,
    {
        match gen_admissible_action(rng, cfg, &model, budget) {
            Some(a) => {
                let ghost prev = out@;
                match &a {
                    Action::Push(p, k) => {
                        model.push(k.clone(), *p);
                    },
                    Action::Remove(k) => {
                        model.remove(k.as_str());
                    },
                }
                out.push(a);
                proof {
                    assert forall|j: int| 0 <= j < out@.len() implies drawn_from(
                        *cfg,
                        after_draws(old(rng)@, j as nat),
                        #[trigger] out@[j],
                    ) by {
                        if j < i {
                            assert(out@[j] == prev[j]);
                        }
                    }
                }
            },
            None => {
                return Err(GenerationExhausted { slot: i, attempts: budget });
            },
        }
        i = i + 1;
    }
    Ok(out)
}

/// The end state of a priority-map campaign.
#[derive(Debug)]
pub enum PqCampaignOutcome {
    Success { cases_run: usize, seed: u64 },
    Failed { case_index: usize, seed: u64, sequence: Vec<Action>, report: Report<Action, Outcome> },
    Exhausted { case_index: usize, seed: u64, error: GenerationExhausted },
}

/// Runs `case_count` generated sequences, each with a length drawn from
/// `[min_len, max_len]`, against fresh model/queue pairs.
pub fn run_campaign(
    cfg: &PqGenConfig,
    seed: u64,
    case_count: usize,
    min_len: u32,
    max_len: u32,
    budget: u32,
) -> (r: PqCampaignOutcome)
    requires
        cfg.wf(),
        min_len <= max_len < u32::MAX,
    ensures
        (budget > 0 || max_len == 0) ==> r == (PqCampaignOutcome::Success { cases_run: case_count, seed }),
        r matches PqCampaignOutcome::Success { cases_run, seed: s } ==> cases_run == case_count && s == seed,
        r matches PqCampaignOutcome::Exhausted { case_index, seed: s, error } ==> case_index < case_count
            && s == seed && error.attempts == budget && budget == 0,
        !(r is Failed),
        budget == 0 && min_len > 0 && case_count > 0 ==> r == (PqCampaignOutcome::Exhausted {
            case_index: 0,
            seed,
            error: GenerationExhausted { slot: 0, attempts: 0 },
        }),
{
    let mut rng = Rng::new(seed);
    let mut i: usize = 0;
    while i < case_count
        invariant
            i <= case_count,
            min_len <= max_len < u32::MAX,
            cfg.wf(),
            budget == 0 && min_len > 0 ==> i == 0,
        decreases case_count - i,
    {
        let len = min_len + rng.below(max_len - min_len + 1);
        match generate_sequence(&mut rng, cfg, len as usize, budget) {
            Ok(seq) => {
                if let Err(report) = run_sequence(&seq) {
                    return PqCampaignOutcome::Failed { case_index: i, seed, sequence: seq, report };
                }
            },
            Err(error) => {
                return PqCampaignOutcome::Exhausted { case_index: i, seed, error };
            },
        }
        i = i + 1;
    }
    PqCampaignOutcome::Success { cases_run: case_count, seed }
}

} // verus!
