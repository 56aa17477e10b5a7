use std::collections::BTreeSet;

use priority_queue::PriorityQueue;
use roaring::RoaringBitmap;
use stateful_check::campaign::{run_campaign, CampaignConfig, CampaignOutcome};
use stateful_check::engine::{replay, ModelProps, Report};
use stateful_check::pq_domain::{self, Outcome, PqDomain, PqueueModel};
use stateful_check::pq_gen::{self, GenerationExhausted, PqCampaignOutcome, PqGenConfig};
use stateful_check::rng::Rng;
use stateful_check::set_domain::{self, Action as SetAction, BitmapModel, SetDomain};

#[test]
fn model_basics() {
    let mut model = PqueueModel::new();
    let mut actual = PriorityQueue::new();
    let actions = vec![
        pq_domain::Action::Push(2, "c".into()),
        pq_domain::Action::Push(0, "d".into()),
        pq_domain::Action::Remove("c".into()),
    ];
    for action in actions {
        if pq_domain::pre_condition(&model, &action) {
            pq_domain::apply_and_check_result(&action, &mut model, &mut actual).unwrap();
        }
    }
}

fn set_scenario() -> Vec<set_domain::Action> {
    vec![SetAction::Insert(5), SetAction::Insert(5), SetAction::Remove(5), SetAction::Contains(5)]
}

/// Results of a set whose `insert` always claims the value was new.
fn faulty_insert_results(actions: &Vec<set_domain::Action>) -> Vec<bool> {
    let mut s = BTreeSet::new();
    actions
        .iter()
        .map(|a| match a {
            set_domain::Action::Insert(v) => {
                s.insert(*v);
                true
            }
            set_domain::Action::Remove(v) => s.remove(v),
            set_domain::Action::Contains(v) => s.contains(v),
        })
        .collect()
}

fn faulty_check(actions: &Vec<set_domain::Action>) -> Result<(), Report<set_domain::Action, bool>> {
    set_domain::replay_against(actions, &faulty_insert_results(actions))
}

#[test]
fn set_scenario_model_results() {
    assert_eq!(set_domain::model_results(&set_scenario()), vec![true, false, true, false]);
}

#[test]
fn set_scenario_against_bitmap() {
    assert!(set_domain::run_sequence(&set_scenario()).is_ok());
}

#[test]
fn set_scenario_step_by_step() {
    let mut model = BitmapModel::new();
    let mut actual = RoaringBitmap::new();
    for a in set_scenario() {
        set_domain::apply_and_check_result(&a, &mut model, &mut actual).unwrap();
    }
    assert!(!model.contains(5));
    assert!(!actual.contains(5));
}

#[test]
fn set_scenario_faulty_insert_flagged_at_one() {
    let actions = set_scenario();
    let observed = faulty_insert_results(&actions);
    assert_eq!(observed, vec![true, true, true, false]);
    let rep = set_domain::replay_against(&actions, &observed).unwrap_err();
    assert_eq!(rep.failing_index, 1);
    assert_eq!(rep.divergence.action, set_domain::Action::Insert(5));
    assert!(!rep.divergence.model_result);
    assert!(rep.divergence.system_result);
}

#[test]
fn bitmap_model_operations() {
    let mut m = BitmapModel::new();
    assert!(m.insert(3));
    assert!(!m.insert(3));
    assert!(m.contains(3));
    assert!(m.remove(3));
    assert!(!m.remove(3));
    assert!(!m.contains(3));
}

#[test]
fn check_result_mismatch_is_divergence() {
    let a = set_domain::Action::Contains(7);
    assert!(set_domain::check_result(&a, true, true).is_ok());
    let d = set_domain::check_result(&a, true, false).unwrap_err();
    assert_eq!(d.action, a);
    assert!(d.model_result);
    assert!(!d.system_result);
}

#[test]
fn pq_scenario_results() {
    let mut model = PqueueModel::new();
    assert_eq!(model.push("c".to_string(), 2), None);
    assert_eq!(model.push("d".to_string(), 0), None);
    assert_eq!(model.remove("c"), Some(("c".to_string(), 2)));
    assert_eq!(model.remove("c"), None);
}

#[test]
fn pq_scenario_against_queue() {
    let mut model = PqueueModel::new();
    let mut actual = PriorityQueue::new();
    let push_c = pq_domain::Action::Push(2, "c".to_string());
    let push_d = pq_domain::Action::Push(0, "d".to_string());
    let remove_c = pq_domain::Action::Remove("c".to_string());
    for a in [&push_c, &push_d, &remove_c] {
        pq_domain::apply_and_check_result(a, &mut model, &mut actual).unwrap();
    }
    assert_eq!(actual.get_priority("d"), Some(&0));
    assert_eq!(actual.get_priority("c"), None);
    assert!(pq_domain::run_sequence(&vec![push_c, push_d, remove_c]).is_ok());
}

#[test]
fn pq_push_replaces_priority() {
    let mut model = PqueueModel::new();
    assert_eq!(model.push("a".to_string(), 1), None);
    assert_eq!(model.push("a".to_string(), 5), Some(1));
    assert_eq!(model.remove("a"), Some(("a".to_string(), 5)));
}

#[test]
fn pq_remove_absent_key() {
    let mut model = PqueueModel::new();
    assert_eq!(model.remove("zz"), None);
    let mut q = PriorityQueue::new();
    let r = pq_domain::apply_and_check_result(&pq_domain::Action::Remove("zz".to_string()), &mut model, &mut q);
    assert!(r.is_ok());
}

#[test]
fn pq_check_result_mismatch() {
    let a = pq_domain::Action::Push(1, "k".to_string());
    let d = pq_domain::check_result(&a, Outcome::Pushed(None), Outcome::Pushed(Some(3))).unwrap_err();
    assert_eq!(d.action, a);
    assert_eq!(d.model_result, Outcome::Pushed(None));
    assert_eq!(d.system_result, Outcome::Pushed(Some(3)));
    assert!(pq_domain::check_result(&a, Outcome::Pushed(Some(3)), Outcome::Pushed(Some(3))).is_ok());
    assert!(!pq_domain::same_outcome(&Outcome::Pushed(None), &Outcome::Removed(None)));
}

fn config(seed: u64) -> CampaignConfig {
    CampaignConfig {
        case_count: 200,
        min_len: 1,
        max_len: 49,
        seed,
        insert_weight: 3,
        remove_weight: 3,
        contains_weight: 1,
        max_val: 50,
    }
}

#[test]
fn rng_is_reproducible() {
    let mut a = Rng::new(42);
    let mut b = Rng::new(42);
    for _ in 0..10 {
        assert_eq!(a.next_u32(), b.next_u32());
    }
    let mut c = Rng::new(0);
    // 0 * M + C = C; high half of C.
    assert_eq!(c.next_u32(), (1442695040888963407u64 >> 32) as u32);
    assert!(Rng::new(9).below(7) < 7);
}

#[test]
fn same_seed_same_sequences() {
    let cfg = config(7);
    let mut r1 = Rng::new(cfg.seed);
    let mut r2 = Rng::new(cfg.seed);
    for _ in 0..20 {
        let s1 = stateful_check::campaign::generate_sequence(&mut r1, &cfg);
        let s2 = stateful_check::campaign::generate_sequence(&mut r2, &cfg);
        assert_eq!(s1, s2);
        assert!(!s1.is_empty() && s1.len() <= 49);
    }
}

#[test]
fn campaign_against_bitmap_succeeds() {
    let cfg = config(1234);
    match run_campaign(&cfg, &set_domain::run_sequence) {
        CampaignOutcome::Success { cases_run, seed } => {
            assert_eq!(cases_run, 200);
            assert_eq!(seed, 1234);
        }
        CampaignOutcome::Failed(r) => panic!("unexpected failure: {:?}", r),
    }
}

#[test]
fn campaign_catches_faulty_insert() {
    let cfg = config(99);
    let first = run_campaign(&cfg, &faulty_check);
    let second = run_campaign(&cfg, &faulty_check);
    let (a, b) = match (first, second) {
        (CampaignOutcome::Failed(a), CampaignOutcome::Failed(b)) => (a, b),
        _ => panic!("the faulty insert was not caught"),
    };
    assert_eq!(a.case_index, b.case_index);
    assert_eq!(a.original, b.original);
    assert_eq!(a.sequence, b.sequence);
    // Shrunk to two inserts of one value: dropping either, or halving either
    // operand, makes the divergence go away.
    assert_eq!(a.sequence.len(), 2);
    match (a.sequence[0], a.sequence[1]) {
        (set_domain::Action::Insert(x), set_domain::Action::Insert(y)) => assert_eq!(x, y),
        other => panic!("unexpected shrunk sequence {:?}", other),
    }
    assert!(faulty_check(&a.sequence).is_err());
    assert_eq!(a.divergence.failing_index, 1);
}

#[test]
fn shrink_keeps_failure() {
    let seq = vec![
        SetAction::Contains(9),
        SetAction::Insert(12),
        SetAction::Remove(3),
        SetAction::Insert(12),
        SetAction::Contains(1),
    ];
    let first = faulty_check(&seq).unwrap_err();
    let (out, rep) = stateful_check::campaign::shrink(seq, first, &faulty_check);
    assert!(faulty_check(&out).is_err());
    assert_eq!(out.len(), 2);
    assert_eq!(rep.failing_index, 1);
}

fn pq_config() -> PqGenConfig {
    PqGenConfig { push_weight: 1, remove_weight: 1, prio_bound: 10, key_count: 13 }
}

#[test]
fn pq_key_names() {
    assert_eq!(pq_gen::key_name(0), "a");
    assert_eq!(pq_gen::key_name(4), "e");
    assert_eq!(pq_gen::key_name(12), "m");
}

#[test]
fn pq_generated_actions_in_domain() {
    let mut rng = Rng::new(5);
    for _ in 0..100 {
        match pq_gen::gen_action(&mut rng, &pq_config()) {
            pq_domain::Action::Push(p, k) => {
                assert!((0..10).contains(&p));
                assert!(k.len() == 1 && ("a"..="m").contains(&k.as_str()));
            }
            pq_domain::Action::Remove(k) => {
                assert!(k.len() == 1 && ("a"..="m").contains(&k.as_str()));
            }
        }
    }
}

#[test]
fn pq_generation_exhausted_with_no_budget() {
    let mut rng = Rng::new(3);
    let e = pq_gen::generate_sequence(&mut rng, &pq_config(), 4, 0).unwrap_err();
    assert_eq!(e, GenerationExhausted { slot: 0, attempts: 0 });
    assert_eq!(pq_gen::generate_sequence(&mut rng, &pq_config(), 0, 0).unwrap(), vec![]);
    let mut rng = Rng::new(3);
    assert_eq!(pq_gen::generate_sequence(&mut rng, &pq_config(), 9, 5).unwrap().len(), 9);
}

#[test]
fn pq_campaign_outcomes() {
    match pq_gen::run_campaign(&pq_config(), 11, 300, 1, 9, 8) {
        PqCampaignOutcome::Success { cases_run, seed } => {
            assert_eq!(cases_run, 300);
            assert_eq!(seed, 11);
        }
        other => panic!("unexpected outcome {:?}", other),
    }
    match pq_gen::run_campaign(&pq_config(), 11, 300, 1, 9, 0) {
        PqCampaignOutcome::Exhausted { case_index, error, .. } => {
            assert_eq!(case_index, 0);
            assert_eq!(error.attempts, 0);
        }
        other => panic!("unexpected outcome {:?}", other),
    }
}

#[test]
fn generic_replay_set_domain() {
    let mut model = <SetDomain as ModelProps<_, _, _>>::initial_model();
    let mut system = RoaringBitmap::new();
    assert!(SetDomain::check_precondition(&SetAction::Remove(1), &model));
    assert!(replay::<_, _, _, SetDomain>(set_scenario(), &mut model, &mut system).is_ok());
    assert!(!model.contains(5));
}

#[test]
fn generic_replay_reports_divergence_index() {
    let mut model = <PqDomain as ModelProps<_, _, _>>::initial_model();
    // The system starts out holding a key that the model has never seen.
    let mut system = PriorityQueue::new();
    system.push("b".to_string(), 7);
    let actions = vec![
        pq_domain::Action::Push(1, "a".to_string()),
        pq_domain::Action::Push(3, "b".to_string()),
        pq_domain::Action::Remove("a".to_string()),
    ];
    let rep = replay::<_, _, _, PqDomain>(actions, &mut model, &mut system).unwrap_err();
    assert_eq!(rep.failing_index, 1);
    assert_eq!(rep.divergence.model_result, Outcome::Pushed(None));
    assert_eq!(rep.divergence.system_result, Outcome::Pushed(Some(7)));
}

#[test]
fn pq_generation_respects_config() {
    let cfg = PqGenConfig { push_weight: 1, remove_weight: 0, prio_bound: 3, key_count: 2 };
    let mut rng = Rng::new(17);
    for _ in 0..100 {
        match pq_gen::gen_action(&mut rng, &cfg) {
            pq_domain::Action::Push(p, k) => {
                assert!((0..3).contains(&p));
                assert!(k == "a" || k == "b");
            }
            other => panic!("remove drawn with weight 0: {:?}", other),
        }
    }
}

#[test]
fn pq_campaign_exhausted_exactly() {
    match pq_gen::run_campaign(&pq_config(), 4, 10, 2, 5, 0) {
        PqCampaignOutcome::Exhausted { case_index, seed, error } => {
            assert_eq!(case_index, 0);
            assert_eq!(seed, 4);
            assert_eq!(error, GenerationExhausted { slot: 0, attempts: 0 });
        }
        other => panic!("unexpected outcome {:?}", other),
    }
}

/// Fails whenever the sequence holds a `Contains` of a value above 3.
fn contains_above_three(actions: &Vec<SetAction>) -> Result<(), Report<SetAction, bool>> {
    for (i, a) in actions.iter().enumerate() {
        if let SetAction::Contains(v) = a {
            if *v > 3 {
                return Err(Report {
                    failing_index: i,
                    divergence: stateful_check::engine::Divergence {
                        action: *a,
                        model_result: false,
                        system_result: true,
                    },
                });
            }
        }
    }
    Ok(())
}

#[test]
fn shrink_simplifies_operands_and_variants() {
    let seq = vec![SetAction::Insert(40), SetAction::Contains(37), SetAction::Remove(8)];
    let first = contains_above_three(&seq).unwrap_err();
    let (out, rep) = stateful_check::campaign::shrink(seq, first, &contains_above_three);
    // Only the Contains is needed; its operand halves down to the smallest
    // value above 3 that halving reaches, and it cannot become an Insert or
    // a Remove.
    assert_eq!(out.len(), 1);
    match out[0] {
        SetAction::Contains(v) => assert!(v > 3 && v / 2 <= 3),
        other => panic!("unexpected {:?}", other),
    }
    assert_eq!(rep.failing_index, 0);
}

/// Fails whenever the sequence holds a `Remove`, whatever its operand.
fn any_remove(actions: &Vec<SetAction>) -> Result<(), Report<SetAction, bool>> {
    match actions.iter().position(|a| matches!(a, SetAction::Remove(_))) {
        Some(i) => Err(Report {
            failing_index: i,
            divergence: stateful_check::engine::Divergence {
                action: actions[i],
                model_result: true,
                system_result: false,
            },
        }),
        None => Ok(()),
    }
}

#[test]
fn shrink_zeroes_operands() {
    let seq = vec![SetAction::Insert(30), SetAction::Contains(5), SetAction::Remove(41)];
    let first = any_remove(&seq).unwrap_err();
    let (out, _) = stateful_check::campaign::shrink(seq, first, &any_remove);
    assert_eq!(out, vec![SetAction::Remove(0)]);
}

#[test]
fn generic_replay_empty_is_ok() {
    let mut model = <SetDomain as ModelProps<_, _, _>>::initial_model();
    let mut system = RoaringBitmap::new();
    assert!(replay::<_, _, _, SetDomain>(vec![], &mut model, &mut system).is_ok());
}
