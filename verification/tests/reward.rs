use science_vault::dispatch::{DispatchError, Origin};
use science_vault::perbill::Perbill;
use science_vault::reward::{
    Config, Error, Event, GenesisConfig, Pallet, Reputation, RewardWeights, MAX_USERS,
};
use science_vault::weight::Weight;

fn weights() -> RewardWeights {
    RewardWeights {
        do_process_evaluation_queue: Weight::from_parts(100, 0),
        process_evaluation_queue_one: Weight::from_parts(1_000, 0),
        process_evaluation_queue_two: Weight::from_parts(1_500, 0),
        on_idle_noop: Weight::from_parts(7, 3),
    }
}

fn new_test_ext() -> Pallet {
    Pallet::new(Config { reevaluation_period: 10, weights: weights() })
}

type Snapshot = (Option<Reputation>, Option<Reputation>, u128, Vec<u64>, Vec<u64>, Vec<Event>);

fn snapshot(p: &Pallet) -> Snapshot {
    (
        p.reputation(0),
        p.reputation(1),
        p.max_raw_reputation(),
        p.account_queue().clone(),
        p.evaluation_queue().clone(),
        p.events().clone(),
    )
}

fn assert_noop(p: &mut Pallet, call: impl FnOnce(&mut Pallet) -> Result<(), DispatchError>, e: DispatchError) {
    let before = snapshot(p);
    assert_eq!(call(p), Err(e));
    assert_eq!(snapshot(p), before);
}

#[test]
fn reward() {
    let mut m = new_test_ext();
    m.add_contribution(&0);
    m.add_contribution(&1);
    assert_eq!(m.reward(Origin::Signed(0), 1, 10, 1), Ok(()));
    assert_eq!(m.last_event(), Some(Event::AccountRewarded { who: 0, account: 1, amount: 10 }));
}

#[test]
fn noop_reward() {
    let mut m = new_test_ext();
    m.add_contribution(&1);
    assert_noop(
        &mut m,
        |m| m.reward(Origin::Signed(0), 1, 10, 1),
        DispatchError::Reward(Error::AccountNeedToParticipateBeforeVoting),
    );
}

#[test]
fn noop_reward_() {
    let mut m = new_test_ext();
    m.add_contribution(&0);
    assert_noop(
        &mut m,
        |m| m.reward(Origin::Signed(0), 1, 10, 1),
        DispatchError::Reward(Error::AccountNotFound),
    );
}

#[test]
fn noop_reward_itself() {
    let mut m = new_test_ext();
    m.add_contribution(&0);
    assert_noop(
        &mut m,
        |m| m.reward(Origin::Signed(0), 0, 10, 1),
        DispatchError::Reward(Error::CannotRewardItself),
    );
}

#[test]
fn punish() {
    let mut m = new_test_ext();
    m.add_contribution(&0);
    m.add_contribution(&1);
    assert_eq!(m.punish(Origin::Signed(0), 1, 10, 1), Ok(()));
    assert_eq!(m.last_event(), Some(Event::AccountPunished { who: 0, account: 1, amount: 10 }));
}

#[test]
fn noop_punish() {
    let mut m = new_test_ext();
    m.add_contribution(&1);
    assert_noop(
        &mut m,
        |m| m.punish(Origin::Signed(0), 1, 10, 1),
        DispatchError::Reward(Error::AccountNeedToParticipateBeforeVoting),
    );
}

#[test]
fn noop_punish_() {
    let mut m = new_test_ext();
    m.add_contribution(&0);
    assert_noop(
        &mut m,
        |m| m.punish(Origin::Signed(0), 1, 10, 1),
        DispatchError::Reward(Error::AccountNotFound),
    );
}

#[test]
fn noop_punish_itself() {
    let mut m = new_test_ext();
    m.add_contribution(&0);
    assert_noop(
        &mut m,
        |m| m.punish(Origin::Signed(0), 0, 10, 1),
        DispatchError::Reward(Error::CannotRewardItself),
    );
}

#[test]
fn reward_raises_score_by_reputation_times_amount() {
    let mut m = new_test_ext();
    m.add_contribution(&0);
    m.add_contribution(&1);
    assert_eq!(m.reward(Origin::Signed(0), 1, 10, 5), Ok(()));
    let r = m.reputation(1).unwrap();
    assert_eq!(r.score, 11);
    assert_eq!(r.contribution, 1);
    assert_eq!(r.last_evaluation, 5);
    assert_eq!(r.reputation, Perbill { parts: 1_000_000_000 });
    assert_eq!(m.max_raw_reputation(), 11);
}

#[test]
fn reward_amount_is_capped() {
    let mut m = new_test_ext();
    m.add_contribution(&0);
    m.add_contribution(&1);
    assert_eq!(m.reward(Origin::Signed(0), 1, 1_000, 1), Ok(()));
    assert_eq!(m.reputation(1).unwrap().score, 101);
    assert_eq!(m.last_event(), Some(Event::AccountRewarded { who: 0, account: 1, amount: 100 }));
}

#[test]
fn reward_scaled_by_rewarder_reputation() {
    let mut m = new_test_ext();
    m.add_contribution(&0);
    m.add_contribution(&1);
    GenesisConfig { initial_reputation: 199 }.build(&mut m);
    // rewarder raw 1: reputation 100 / 200 = one half; half of 3 rounds down to 1
    assert_eq!(m.reward(Origin::Signed(0), 1, 3, 1), Ok(()));
    assert_eq!(m.reputation(1).unwrap().score, 2);
    assert_eq!(m.max_raw_reputation(), 199);
    // raw 2 against 199: 200 / 200 is one whole
    assert_eq!(m.reputation(1).unwrap().reputation, Perbill { parts: 1_000_000_000 });
}

#[test]
fn punish_lowers_score_saturating() {
    let mut m = new_test_ext();
    m.add_contribution(&0);
    m.add_contribution(&1);
    assert_eq!(m.punish(Origin::Signed(0), 1, 10, 3), Ok(()));
    let r = m.reputation(1).unwrap();
    assert_eq!(r.score, 0);
    assert_eq!(r.reputation, Perbill { parts: 0 });
    assert_eq!(r.last_evaluation, 3);
    assert_eq!(m.max_raw_reputation(), 0);
}

#[test]
fn slash_needs_root() {
    let mut m = new_test_ext();
    m.add_contribution(&0);
    assert_noop(&mut m, |m| m.slash(Origin::Signed(0), 0, 10, 1), DispatchError::BadOrigin);
    assert_noop(
        &mut m,
        |m| m.slash(Origin::Root, 1, 10, 1),
        DispatchError::Reward(Error::AccountNotFound),
    );
    assert_eq!(m.slash(Origin::Root, 0, 10, 1), Ok(()));
    assert_eq!(m.reputation(0).unwrap().score, 0);
    assert_eq!(m.events().len(), 0);
}

#[test]
fn unsigned_votes_are_refused() {
    let mut m = new_test_ext();
    m.add_contribution(&0);
    m.add_contribution(&1);
    assert_noop(&mut m, |m| m.reward(Origin::Unsigned, 1, 10, 1), DispatchError::BadOrigin);
    assert_noop(&mut m, |m| m.punish(Origin::Root, 1, 10, 1), DispatchError::BadOrigin);
    assert_noop(&mut m, |m| m.evaluate_reputation(Origin::Root, 1, 1), DispatchError::BadOrigin);
}

#[test]
fn evaluate_reputation_updates_max_and_reputation() {
    let mut m = new_test_ext();
    for _ in 0..1000 {
        m.add_contribution(&0);
    }
    m.add_contribution(&1);
    assert_eq!(m.evaluate_reputation(Origin::Signed(1), 0, 4), Ok(()));
    assert_eq!(m.max_raw_reputation(), 1000);
    assert_eq!(m.evaluate_reputation(Origin::Signed(0), 1, 4), Ok(()));
    // 100 / 1001 of one whole, rounded down
    assert_eq!(m.reputation(1).unwrap().reputation, Perbill { parts: 99_900_099 });
    assert_noop(
        &mut m,
        |m| m.evaluate_reputation(Origin::Signed(0), 7, 4),
        DispatchError::Reward(Error::AccountNotFound),
    );
}

#[test]
fn add_contribution_counts_and_queues_once() {
    let mut m = new_test_ext();
    m.add_contribution(&5);
    m.add_contribution(&5);
    m.add_contribution(&6);
    assert_eq!(m.account_queue(), &vec![5, 6]);
    let r = m.reputation(5).unwrap();
    assert_eq!((r.contribution, r.score, r.reputation, r.last_evaluation), (2, 1, Perbill::zero(), 0));
    assert_eq!(m.reputation(6).unwrap().contribution, 1);
    assert!(MAX_USERS == 100_000);
}

#[test]
fn genesis_sets_max_raw() {
    let mut m = new_test_ext();
    assert_eq!(m.max_raw_reputation(), 0);
    GenesisConfig::default().build(&mut m);
    assert_eq!(m.max_raw_reputation(), 1);
    assert_eq!(Reputation::default().score, 0);
}

fn queue_ext() -> Pallet {
    let mut m = new_test_ext();
    m.add_contribution(&1);
    m.add_contribution(&2);
    for _ in 0..1000 {
        m.add_contribution(&3);
    }
    m
}

#[test]
fn process_evaluation_queue_evaluates_from_the_back() {
    let mut m = queue_ext();
    GenesisConfig { initial_reputation: 77 }.build(&mut m);
    let (w, paid) = m.process_evaluation_queue(Weight::from_parts(100_000, 0), 9, 1_000_000);
    assert_eq!(w, Weight::from_parts(1_600, 0));
    assert_eq!(paid, vec![(3, 1_000_000), (2, 99_900), (1, 99_900)]);
    assert_eq!(m.max_raw_reputation(), 1000);
    assert_eq!(m.evaluation_queue().len(), 0);
    assert_eq!(m.account_queue(), &vec![1, 2, 3]);
    assert_eq!(m.reputation(2).unwrap().reputation, Perbill { parts: 99_900_099 });
    assert_eq!(m.reputation(2).unwrap().last_evaluation, 9);
}

#[test]
fn process_evaluation_queue_stops_at_the_weight_limit() {
    let mut m = queue_ext();
    let (w, paid) = m.process_evaluation_queue(Weight::from_parts(1_600, 0), 9, 1_000_000);
    assert_eq!(w, Weight::from_parts(1_100, 0));
    assert_eq!(paid.len(), 2);
    assert_eq!(m.evaluation_queue(), &vec![1]);
    assert_eq!(m.reputation(1).unwrap().last_evaluation, 0);
}

#[test]
fn process_empty_queue_only_resets() {
    let mut m = new_test_ext();
    GenesisConfig::default().build(&mut m);
    let (w, paid) = m.process_evaluation_queue(Weight::from_parts(100_000, 0), 1, 10);
    assert_eq!(w, Weight::from_parts(100, 0));
    assert!(paid.is_empty());
    assert_eq!(m.max_raw_reputation(), 0);
}

#[test]
fn on_idle_runs_every_period() {
    let mut m = queue_ext();
    let before = snapshot(&m);
    let (w, paid) = m.on_idle(5, Weight::from_parts(100_000, 0), 1_000_000);
    assert_eq!(w, Weight::from_parts(100_007, 3));
    assert!(paid.is_empty());
    assert_eq!(snapshot(&m), before);
    let (w, paid) = m.on_idle(20, Weight::from_parts(100_000, 0), 1_000_000);
    assert_eq!(w, Weight::from_parts(1_600, 0));
    assert_eq!(paid.len(), 3);
}

#[test]
fn evaluating_twice_is_evaluating_once() {
    let mut a = queue_ext();
    let mut b = queue_ext();
    assert_eq!(a.evaluate_reputation(Origin::Signed(1), 3, 2), Ok(()));
    assert_eq!(b.evaluate_reputation(Origin::Signed(1), 3, 2), Ok(()));
    assert_eq!(b.evaluate_reputation(Origin::Signed(1), 3, 2), Ok(()));
    assert_eq!(snapshot(&a), snapshot(&b));
    assert_eq!(a.reputation(3), b.reputation(3));
}

#[test]
fn payouts_never_exceed_the_unit() {
    let mut m = queue_ext();
    let (_, paid) = m.process_evaluation_queue(Weight::from_parts(100_000, 0), 1, 333);
    assert!(paid.iter().all(|(_, amount)| *amount <= 333));
}

#[test]
fn range_checks_accept_ordinary_calls() {
    let mut m = queue_ext();
    assert!(m.can_reward(Origin::Signed(1), 3, 10));
    assert!(m.can_punish(Origin::Signed(1), 3, 10));
    assert!(m.can_slash(Origin::Root, 3, 10));
    assert!(m.can_evaluate(Origin::Signed(1), 3));
    assert!(m.can_process_evaluation_queue(Weight::from_parts(100_000, 0), 1));
    // the checks say nothing against calls that fail before any arithmetic
    assert!(m.can_reward(Origin::Unsigned, 3, 10));
    assert!(m.can_slash(Origin::Root, 99, u128::MAX));
    assert_eq!(m.reward(Origin::Signed(1), 3, 10, 1), Ok(()));
}

#[test]
fn range_checks_refuse_overflow() {
    let mut m = queue_ext();
    // 100 * amount does not fit
    assert!(!m.can_slash(Origin::Root, 3, u128::MAX));
    // the best raw reputation is at its largest: max + 1 does not fit
    GenesisConfig { initial_reputation: u128::MAX }.build(&mut m);
    assert!(!m.can_reward(Origin::Signed(1), 3, 10));
    assert!(!m.can_punish(Origin::Signed(1), 3, 10));
    assert!(!m.can_evaluate(Origin::Signed(1), 3));
    // a round resets the best raw reputation first, so it still fits
    assert!(m.can_process_evaluation_queue(Weight::from_parts(100_000, 0), 1));
}

#[test]
fn range_check_of_round_weights() {
    let cfg = Config {
        reevaluation_period: 10,
        weights: RewardWeights {
            do_process_evaluation_queue: Weight::from_parts(0, u64::MAX),
            process_evaluation_queue_one: Weight::from_parts(0, 0),
            process_evaluation_queue_two: Weight::from_parts(10, 1),
            on_idle_noop: Weight::zero(),
        },
    };
    let mut m = Pallet::new(cfg);
    // an empty queue adds nothing
    assert!(m.can_process_evaluation_queue(Weight::from_parts(1_000, 0), 1));
    m.add_contribution(&1);
    // one account: the proof size would pass u64::MAX
    assert!(!m.can_process_evaluation_queue(Weight::from_parts(1_000, 0), 1));
    // no room at all: the loop does not start
    assert!(m.can_process_evaluation_queue(Weight::from_parts(0, 0), 1));
}

#[test]
fn no_reward_events_at_genesis_block() {
    let mut m = new_test_ext();
    m.add_contribution(&0);
    m.add_contribution(&1);
    assert_eq!(m.reward(Origin::Signed(0), 1, 10, 0), Ok(()));
    assert_eq!(m.punish(Origin::Signed(0), 1, 10, 0), Ok(()));
    assert_eq!(m.reputation(1).unwrap().score, 1);
    assert_eq!(m.last_event(), None);
    assert_eq!(m.reward(Origin::Signed(0), 1, 10, 2), Ok(()));
    assert_eq!(m.events().len(), 1);
}

#[test]
fn amounts_above_the_cap_vote_alike() {
    let mut a = queue_ext();
    let mut b = queue_ext();
    assert_eq!(a.reward(Origin::Signed(3), 1, 100, 1), Ok(()));
    assert_eq!(b.reward(Origin::Signed(3), 1, 5_000, 1), Ok(()));
    assert_eq!(snapshot(&a), snapshot(&b));
    assert_eq!(a.reputation(1), b.reputation(1));
}

#[test]
fn contribution_counts_additions() {
    let mut m = new_test_ext();
    for _ in 0..3 {
        m.add_contribution(&0);
    }
    m.add_contribution(&1);
    assert_eq!(m.reward(Origin::Signed(0), 1, 10, 1), Ok(()));
    assert_eq!(m.punish(Origin::Signed(1), 0, 10, 1), Ok(()));
    assert_eq!(m.slash(Origin::Root, 0, 1, 1), Ok(()));
    let _ = m.process_evaluation_queue(Weight::from_parts(100_000, 0), 2, 10);
    assert_eq!(m.reputation(0).unwrap().contribution, 3);
    assert_eq!(m.reputation(1).unwrap().contribution, 1);
    assert_eq!(m.reputation(2), None);
}
