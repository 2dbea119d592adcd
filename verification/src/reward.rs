//! The reputation pallet: accounts earn contributions by adding to the vault,
//! vote on each other's score, and are periodically re-evaluated against the
//! best raw reputation seen.

use crate::dispatch::{ensure_root, ensure_signed, logged, signer, DispatchError, Origin};
use crate::perbill::{lemma_from_rational_le, spec_from_rational, spec_perbill_mul, Perbill, ACCURACY};
use crate::weight::Weight;
use std::collections::HashMap;
use vstd::prelude::*;

verus! {

broadcast use vstd::std_specs::hash::group_hash_axioms;

/// Most accounts that the account queue can hold.
pub const MAX_USERS: usize = 100_000;

/// Largest amount that one vote can carry.
pub const MAX_VOTE: u128 = 100;

/// What the pallet keeps for each known account.
#[derive(Clone, Copy, Debug, PartialEq, Eq, Structural)]
pub struct Reputation {
    /// Number of elements that the account added to the vault.
    pub contribution: u128,
    /// Score accumulated from votes.
    pub score: u128,
    /// Reputation computed at the last evaluation.
    pub reputation: Perbill,
    /// Block of the last evaluation.
    pub last_evaluation: u64,
}

impl Default for Reputation {
    fn default() -> (r: Reputation)
        ensures
            r.contribution == 0,
            r.score == 0,
            r.reputation.parts == 0,
            r.last_evaluation == 0,
    {
        Reputation { contribution: 0, score: 0, reputation: Perbill::zero(), last_evaluation: 0 }
    }
}

/// Something that is told when an account contributes an element.
pub trait Reward: Sized {
    /// Whether a contribution by `account` can be recorded.
    spec fn can_contribute(&self, account: u64) -> bool;

    /// Whether `next` is this handler after recording a contribution by `account`.
    spec fn records_contribution(&self, next: &Self, account: u64) -> bool;

    /// Records a contribution by `account`.
    fn add_contribution(&mut self, account: &u64)
        requires
            old(self).can_contribute(*account),
        ensures
            old(self).records_contribution(&*final(self), *account),
    ;
}

/// The handler that ignores contributions.
impl Reward for () {
    open spec fn can_contribute(&self, account: u64) -> bool {
        true
    }

    open spec fn records_contribution(&self, next: &(), account: u64) -> bool {
        true
    }

    fn add_contribution(&mut self, account: &u64) {
    }
}

/// Errors of the pallet.
#[derive(Clone, Copy, Debug, PartialEq, Eq, Structural)]
pub enum Error {
    AccountNotFound,
    CannotRewardItself,
    AccountNeedToParticipateBeforeVoting,
}

/// Events that the pallet deposits.
#[derive(Clone, Copy, Debug, PartialEq, Eq, Structural)]
pub enum Event {
    AccountRewarded { account: u64, who: u64, amount: u128 },
    AccountPunished { account: u64, who: u64, amount: u128 },
}

/// Weights of the pallet's own work, as benchmarked for the runtime.
#[derive(Clone, Copy, Debug, PartialEq, Eq, Structural)]
pub struct RewardWeights {
    /// Fixed cost of processing the evaluation queue.
    pub do_process_evaluation_queue: Weight,
    /// Cost of processing a queue of one account.
    pub process_evaluation_queue_one: Weight,
    /// Cost of processing a queue of two accounts.
    pub process_evaluation_queue_two: Weight,
    /// Cost of an idle hook that does nothing.
    pub on_idle_noop: Weight,
}

/// Parameters of the pallet.
#[derive(Clone, Copy, Debug, PartialEq, Eq, Structural)]
pub struct Config {
    /// Every this many blocks the idle hook re-evaluates every account.
    pub reevaluation_period: u32,
    /// Benchmarked weights.
    pub weights: RewardWeights,
}

/// Initial storage of the pallet.
#[derive(Clone, Copy, Debug, PartialEq, Eq, Structural)]
pub struct GenesisConfig {
    /// Initial best raw reputation.
    pub initial_reputation: u128,
}

impl Default for GenesisConfig {
    fn default() -> (g: GenesisConfig)
        ensures
            g.initial_reputation == 1,
    {
        GenesisConfig { initial_reputation: 1 }
    }
}

/// `score * contribution`, the raw reputation of an account.
pub open spec fn raw_of(r: Reputation) -> int {
    r.score as int * r.contribution as int
}

/// Whether computing the reputation of `r` against `max` stays within `u128`.
pub open spec fn fits(r: Reputation, max: u128) -> bool {
    raw_of(r) * 100 <= u128::MAX && max + 1 <= u128::MAX
}

/// The reputation of `r` against the best raw reputation `max`:
/// `100 * raw / (max + 1)` as a fraction, one whole when that exceeds one.
pub open spec fn computed(r: Reputation, max: u128) -> Perbill {
    Perbill { parts: spec_from_rational((raw_of(r) * 100) as u128, (max + 1) as u128) }
}

/// The best raw reputation once `r` has been seen.
pub open spec fn raised_max(r: Reputation, max: u128) -> u128 {
    if raw_of(r) > max as int {
        raw_of(r) as u128
    } else {
        max
    }
}

/// Whether evaluating `r` against `max` stays within `u128`.
pub open spec fn eval_fits(r: Reputation, max: u128) -> bool {
    fits(r, raised_max(r, max))
}

/// `r` after an evaluation at `block` against `max`.
pub open spec fn evaluated(r: Reputation, max: u128, block: u64) -> Reputation {
    Reputation {
        contribution: r.contribution,
        score: r.score,
        reputation: computed(r, raised_max(r, max)),
        last_evaluation: block,
    }
}

/// `r` with another score.
pub open spec fn with_score(r: Reputation, score: u128) -> Reputation {
    Reputation {
        contribution: r.contribution,
        score: score,
        reputation: r.reputation,
        last_evaluation: r.last_evaluation,
    }
}

/// The reputation of an account that contributes for the first time.
pub open spec fn newcomer() -> Reputation {
    Reputation { contribution: 1, score: 1, reputation: Perbill { parts: 0 }, last_evaluation: 0 }
}

/// A vote amount capped at `MAX_VOTE`.
pub open spec fn capped_vote(amount: u128) -> u128 {
    if amount < MAX_VOTE { amount } else { MAX_VOTE }
}


/// Every reputation is at most one whole.
pub open spec fn reputations_bounded(reps: Map<u64, Reputation>) -> bool {
    forall|a: u64| #[trigger] reps.contains_key(a) ==> reps[a].reputation.parts <= ACCURACY
}

/// A computed reputation is at most one whole.
pub proof fn lemma_computed_bounded(r: Reputation, max: u128)
    ensures
        computed(r, max).parts <= ACCURACY,
{
    lemma_from_rational_le((raw_of(r) * 100) as u128, (max + 1) as u128);
}

/// Evaluation keeps every reputation at most one whole.
pub proof fn lemma_eval_all_bounded(
    reps: Map<u64, Reputation>,
    max: u128,
    accts: Seq<u64>,
    block: u64,
)
    requires
        reputations_bounded(reps),
    ensures
        reputations_bounded(eval_all(reps, max, accts, block).0),
    decreases accts.len(),
{
    if accts.len() > 0 {
        lemma_eval_all_bounded(reps, max, accts.drop_last(), block);
        let prev = eval_all(reps, max, accts.drop_last(), block);
        if prev.0.contains_key(accts.last()) {
            lemma_computed_bounded(prev.0[accts.last()], raised_max(prev.0[accts.last()], prev.1));
        }
    }
}

/// Inserting a reputation of at most one whole keeps every reputation bounded.
pub proof fn lemma_insert_bounded(reps: Map<u64, Reputation>, a: u64, r: Reputation)
    requires
        reputations_bounded(reps),
        r.reputation.parts <= ACCURACY,
    ensures
        reputations_bounded(reps.insert(a, r)),
{
    assert forall|b: u64| #[trigger] reps.insert(a, r).contains_key(b) implies reps.insert(
        a,
        r,
    )[b].reputation.parts <= ACCURACY by {
        if b != a {
            assert(reps.contains_key(b));
        }
    }
}


/// A vote moves the score of the account voted on by at most `MAX_VOTE`: a
/// reward never lowers it, a punishment never raises it.
pub proof fn lemma_vote_moves_score_by_at_most_cap(
    p: &Pallet,
    who: u64,
    account: u64,
    amount: u128,
)
    requires
        p.reps().contains_key(who),
        p.reps().contains_key(account),
    ensures
        p.reps()[account].score <= p.rewarded(who, account, amount).score <= p.reps()[account].score
            + MAX_VOTE,
        p.reps()[account].score - MAX_VOTE <= p.punished(who, account, amount).score
            <= p.reps()[account].score,
{
    crate::perbill::lemma_perbill_mul_le(
        computed(p.reps()[who], p.max_raw()).parts,
        capped_vote(amount),
    );
}

/// Evaluating an account raises the best raw reputation to at least the
/// account's raw reputation, and never lowers it.
pub proof fn lemma_evaluation_raises_max(r: Reputation, max: u128)
    requires
        raw_of(r) <= u128::MAX,
    ensures
        raised_max(r, max) >= raw_of(r),
        raised_max(r, max) >= max,
{
}

/// Evaluating the same account twice at the same block is the same as
/// evaluating it once.
pub proof fn lemma_evaluation_idempotent(
    reps: Map<u64, Reputation>,
    max: u128,
    a: u64,
    block: u64,
)
    requires
        reps.contains_key(a) ==> raw_of(reps[a]) <= u128::MAX,
    ensures
        ({
            let once = eval_step(reps, max, a, block);
            eval_step(once.0, once.1, a, block) == once
        }),
{
    let once = eval_step(reps, max, a, block);
    if reps.contains_key(a) {
        let e = evaluated(reps[a], max, block);
        assert(raw_of(e) == raw_of(reps[a]));
        assert(raised_max(e, once.1) == once.1);
        assert(evaluated(e, once.1, block) == e);
        assert(once.0.insert(a, e) =~= once.0);
    }
}

/// Evaluation keeps every score and contribution, hence every raw reputation.
pub proof fn lemma_eval_all_keeps_raw(
    reps: Map<u64, Reputation>,
    max: u128,
    accts: Seq<u64>,
    block: u64,
    a: u64,
)
    requires
        reps.contains_key(a),
    ensures
        eval_all(reps, max, accts, block).0.contains_key(a),
        eval_all(reps, max, accts, block).0[a].score == reps[a].score,
        eval_all(reps, max, accts, block).0[a].contribution == reps[a].contribution,
    decreases accts.len(),
{
    if accts.len() > 0 {
        lemma_eval_all_keeps_raw(reps, max, accts.drop_last(), block, a);
    }
}

/// After a round, the best raw reputation is at least the raw reputation of
/// every account that the round evaluated, and at least where it started.
pub proof fn lemma_round_max_dominates(
    reps: Map<u64, Reputation>,
    max: u128,
    accts: Seq<u64>,
    block: u64,
)
    requires
        forall|a: u64| #[trigger] reps.contains_key(a) ==> raw_of(reps[a]) <= u128::MAX,
    ensures
        eval_all(reps, max, accts, block).1 >= max,
        forall|i: int|
            0 <= i < accts.len() && reps.contains_key(#[trigger] accts[i]) ==> raw_of(
                reps[accts[i]],
            ) <= eval_all(reps, max, accts, block).1,
    decreases accts.len(),
{
    if accts.len() > 0 {
        let init = accts.drop_last();
        lemma_round_max_dominates(reps, max, init, block);
        let prev = eval_all(reps, max, init, block);
        let a = accts.last();
        let fin = eval_all(reps, max, accts, block);
        lemma_eval_all_dom(reps, max, init, block);
        assert(fin == eval_step(prev.0, prev.1, a, block));
        if reps.contains_key(a) {
            lemma_eval_all_keeps_raw(reps, max, init, block, a);
            assert(prev.0.contains_key(a));
            assert(raw_of(prev.0[a]) == raw_of(reps[a]));
            assert(fin.1 == raised_max(prev.0[a], prev.1));
            assert(fin.1 >= prev.1);
            assert(fin.1 >= raw_of(reps[a]));
        } else {
            assert(!prev.0.contains_key(a));
            assert(fin.1 == prev.1);
        }
        assert forall|i: int|
            0 <= i < accts.len() && reps.contains_key(#[trigger] accts[i]) implies raw_of(
            reps[accts[i]],
        ) <= eval_all(reps, max, accts, block).1 by {
            if i < accts.len() - 1 {
                assert(init[i] == accts[i]);
            }
        }
    }
}

/// No payout exceeds its unit: a reputation is at most one whole.
pub proof fn lemma_payouts_at_most_unit(
    reps: Map<u64, Reputation>,
    max: u128,
    accts: Seq<u64>,
    block: u64,
    unit: u128,
)
    ensures
        payouts(reps, max, accts, block, unit).len() == accts.len(),
        forall|i: int|
            0 <= i < accts.len() ==> {
                let p = #[trigger] payouts(reps, max, accts, block, unit)[i];
                p.0 == accts[i] && p.1 <= unit
            },
    decreases accts.len(),
{
    if accts.len() > 0 {
        lemma_payouts_at_most_unit(reps, max, accts.drop_last(), block, unit);
        let now = eval_all(reps, max, accts, block);
        crate::perbill::lemma_perbill_mul_le(
            if now.0.contains_key(accts.last()) {
                now.0[accts.last()].reputation.parts
            } else {
                0
            },
            unit,
        );
        assert forall|i: int| 0 <= i < accts.len() implies {
            let p = #[trigger] payouts(reps, max, accts, block, unit)[i];
            p.0 == accts[i] && p.1 <= unit
        } by {
            if i < accts.len() - 1 {
                assert(accts.drop_last()[i] == accts[i]);
            }
        }
    }
}

/// Whether `next` knows the same accounts as `reps`, each with the same
/// contribution.
pub open spec fn same_contributions(reps: Map<u64, Reputation>, next: Map<u64, Reputation>) -> bool {
    &&& next.dom() == reps.dom()
    &&& forall|a: u64| #[trigger]
        reps.contains_key(a) ==> next[a].contribution == reps[a].contribution
}

/// Replacing a known account's reputation by one with the same contribution
/// keeps every contribution.
pub proof fn lemma_insert_same_contribution(reps: Map<u64, Reputation>, a: u64, r: Reputation)
    requires
        reps.contains_key(a),
        r.contribution == reps[a].contribution,
    ensures
        same_contributions(reps, reps.insert(a, r)),
{
    assert(reps.insert(a, r).dom() =~= reps.dom());
}

/// An evaluation round keeps every contribution.
pub proof fn lemma_eval_all_same_contributions(
    reps: Map<u64, Reputation>,
    max: u128,
    accts: Seq<u64>,
    block: u64,
)
    ensures
        same_contributions(reps, eval_all(reps, max, accts, block).0),
{
    lemma_eval_all_dom(reps, max, accts, block);
    assert forall|a: u64| #[trigger] reps.contains_key(a) implies eval_all(
        reps,
        max,
        accts,
        block,
    ).0[a].contribution == reps[a].contribution by {
        lemma_eval_all_keeps_raw(reps, max, accts, block, a);
    }
}


/// Amounts of `MAX_VOTE` or more all vote the same: the rewarded and
/// punished reputations and the recorded amount do not depend on how much
/// more; and a vote never changes a contribution.
pub proof fn lemma_votes_above_cap_are_equal(
    p: &Pallet,
    who: u64,
    account: u64,
    a1: u128,
    a2: u128,
)
    requires
        a1 >= MAX_VOTE,
        a2 >= MAX_VOTE,
    ensures
        capped_vote(a1) == MAX_VOTE,
        capped_vote(a2) == MAX_VOTE,
        p.rewarded(who, account, a1) == p.rewarded(who, account, a2),
        p.punished(who, account, a1) == p.punished(who, account, a2),
        p.reps().contains_key(account) ==> p.rewarded(who, account, a1).contribution == p.reps()[account].contribution,
        p.reps().contains_key(account) ==> p.punished(who, account, a1).contribution == p.reps()[account].contribution,
{
}

/// Evaluating an account a second time at the same block, right after a
/// first evaluation, changes neither the reputations nor the best raw
/// reputation.
pub proof fn lemma_second_evaluation_changes_nothing(
    first: &Pallet,
    second: &Pallet,
    third: &Pallet,
    account: u64,
    block: u64,
)
    requires
        first.reps().contains_key(account),
        raw_of(first.reps()[account]) <= u128::MAX,
        first.evaluation_done(second, account, block),
        second.evaluation_done(third, account, block),
    ensures
        third.reps() == second.reps(),
        third.max_raw() == second.max_raw(),
{
    lemma_evaluation_idempotent(first.reps(), first.max_raw(), account, block);
}

/// A contribution only appends to the account queue and forgets no account.
pub proof fn lemma_contribution_appends_to_queue(p: &Pallet, next: &Pallet, account: u64)
    requires
        p.contribution_recorded(next, account),
    ensures
        next.acct_queue().len() >= p.acct_queue().len(),
        next.acct_queue().take(p.acct_queue().len() as int) == p.acct_queue(),
        p.reps().dom().subset_of(next.reps().dom()),
        next.reps().contains_key(account),
{
    assert(next.acct_queue().take(p.acct_queue().len() as int) =~= p.acct_queue());
}

/// How many of `steps` are contributions of `a`.
pub open spec fn contributions_of(steps: Seq<Option<u64>>, a: u64) -> nat
    decreases steps.len(),
{
    if steps.len() == 0 {
        0
    } else {
        contributions_of(steps.drop_last(), a) + if steps.last() == Some(a) {
            1nat
        } else {
            0nat
        }
    }
}

/// Whether `next` follows `p` by `step`: a contribution of the account it
/// names (which `add_contribution` admits only below `u128::MAX`), or (for
/// `None`) any call that keeps every contribution.
pub open spec fn contribution_step(p: &Pallet, next: &Pallet, step: Option<u64>) -> bool {
    match step {
        Some(a) => {
            &&& p.reps().contains_key(a) ==> p.reps()[a].contribution < u128::MAX
            &&& p.contribution_recorded(next, a)
        },
        None => p.contributions_kept(next),
    }
}

/// From empty storage, an account is known exactly when it contributed, and
/// its contribution is the number of its contributions: votes, slashes,
/// evaluations and rounds change no contribution.
pub proof fn lemma_contribution_counts(states: Seq<Pallet>, steps: Seq<Option<u64>>, n: int)
    requires
        states.len() == steps.len() + 1,
        0 <= n <= steps.len(),
        states[0].reps() == Map::<u64, Reputation>::empty(),
        forall|i: int|
            0 <= i < steps.len() ==> contribution_step(&states[i], &states[i + 1], #[trigger] steps[i]),
    ensures
        forall|a: u64|
            #![trigger states[n].reps().contains_key(a)]
            (states[n].reps().contains_key(a) <==> contributions_of(steps.take(n), a) > 0)
                && (states[n].reps().contains_key(a) ==> states[n].reps()[a].contribution
                == contributions_of(steps.take(n), a)),
    decreases n,
{
    if n == 0 {
        let none = steps.take(0);
        assert(none.len() == 0);
        assert forall|a: u64| #[trigger] contributions_of(none, a) == 0 by {}
        assert forall|a: u64| !#[trigger] states[0].reps().contains_key(a) by {}
    } else {
        lemma_contribution_counts(states, steps, n - 1);
        let prev = states[n - 1];
        let cur = states[n];
        assert(contribution_step(&prev, &cur, steps[n - 1]));
        assert(steps.take(n).drop_last() =~= steps.take(n - 1));
        assert forall|a: u64| #![trigger states[n].reps().contains_key(a)]
            (cur.reps().contains_key(a) <==> contributions_of(steps.take(n), a) > 0) && (
            cur.reps().contains_key(a) ==> cur.reps()[a].contribution == contributions_of(
                steps.take(n),
                a,
            )) by {
            let c_prev = contributions_of(steps.take(n - 1), a);
            assert(steps.take(n).last() == steps[n - 1]);
            assert(contributions_of(steps.take(n), a) == c_prev + if steps[n - 1] == Some(a) {
                1nat
            } else {
                0nat
            });
            assert(states[n - 1].reps().contains_key(a) <==> c_prev > 0);
            assert(states[n - 1].reps().contains_key(a) ==> states[n - 1].reps()[a].contribution
                == c_prev);
            match steps[n - 1] {
                Some(b) => {
                    assert(prev.contribution_recorded(&cur, b));
                    if a != b {
                        assert(cur.reps().contains_key(a) == prev.reps().contains_key(a));
                    }
                },
                None => {
                    assert(prev.contributions_kept(&cur));
                    assert(cur.reps().dom().contains(a) == prev.reps().dom().contains(a));
                },
            }
        }
    }
}


/// The reputation, in parts per billion, of an account with this score and
/// contribution against the best raw reputation `max`: `100 * score *
/// contribution / (max + 1)` of one whole, rounded down, and one whole when
/// that is more than one.
pub open spec fn reputation_parts(score: int, contribution: int, max: int) -> int {
    let num = score * contribution * 100;
    let den = max + 1;
    if num > den {
        1_000_000_000
    } else {
        1_000_000_000 * num / den
    }
}

/// `x * parts / 10^9`, rounded to the nearest integer with halves rounded down.
pub open spec fn scaled(x: int, parts: int) -> int {
    let prod = x * parts;
    prod / 1_000_000_000 + if prod % 1_000_000_000 > 500_000_000 {
        1int
    } else {
        0int
    }
}

/// A vote amount capped at 100.
pub open spec fn cap_100(amount: u128) -> int {
    if amount < 100 {
        amount as int
    } else {
        100
    }
}


/// The computed reputation is `reputation_parts` of the score, contribution
/// and best raw reputation.
pub proof fn lemma_computed_is_reputation_parts(r: Reputation, max: u128)
    requires
        r.score * r.contribution * 100 <= u128::MAX,
        max < u128::MAX,
    ensures
        computed(r, max).parts as int == reputation_parts(r.score as int, r.contribution as int, max as int),
        0 <= reputation_parts(r.score as int, r.contribution as int, max as int) <= 1_000_000_000,
{
    let num = r.score as int * r.contribution as int * 100;
    let den = max as int + 1;
    assert(raw_of(r) * 100 == num);
    assert(0 <= num) by (nonlinear_arith)
        requires
            num == r.score as int * r.contribution as int * 100,
            r.score >= 0,
            r.contribution >= 0,
    ;
    if num <= den {
        assert(1_000_000_000 * num / den <= 1_000_000_000) by (nonlinear_arith)
            requires
                0 <= num <= den,
                den > 0,
        ;
        assert(0 <= 1_000_000_000 * num / den) by (nonlinear_arith)
            requires
                0 <= num,
                den > 0,
        ;
    }
}

/// The best raw reputation among the known accounts of `accts`, zero if none.
pub open spec fn best_raw(reps: Map<u64, Reputation>, accts: Seq<u64>) -> int
    decreases accts.len(),
{
    if accts.len() == 0 {
        0
    } else {
        let before = best_raw(reps, accts.drop_last());
        let here = if reps.contains_key(accts.last()) {
            reps[accts.last()].score as int * reps[accts.last()].contribution as int
        } else {
            0
        };
        if here > before {
            here
        } else {
            before
        }
    }
}

/// Whether every known account's raw reputation, times 100, fits in `u128`.
pub open spec fn raws_fit(reps: Map<u64, Reputation>) -> bool {
    forall|a: u64| #[trigger]
        reps.contains_key(a) ==> reps[a].score * reps[a].contribution * 100 <= u128::MAX
}

/// Evaluating distinct accounts in order, starting from a best raw reputation
/// of zero: the best raw reputation becomes the best raw reputation among
/// them; each of them is recomputed against the best among itself and those
/// before it and stamped with `block`, keeping score and contribution; every
/// other account is unchanged.
pub proof fn lemma_eval_all_explicit(reps: Map<u64, Reputation>, accts: Seq<u64>, block: u64)
    requires
        accts.no_duplicates(),
        raws_fit(reps),
    ensures
        ({
            let out = eval_all(reps, 0, accts, block);
            &&& out.1 as int == best_raw(reps, accts)
            &&& 0 <= best_raw(reps, accts)
            &&& best_raw(reps, accts) * 100 <= u128::MAX
            &&& out.0.dom() == reps.dom()
            &&& forall|i: int|
                0 <= i < accts.len() && reps.contains_key(#[trigger] accts[i]) ==> {
                    let r = reps[accts[i]];
                    let e = out.0[accts[i]];
                    &&& e.score == r.score
                    &&& e.contribution == r.contribution
                    &&& e.last_evaluation == block
                    &&& e.reputation.parts as int == reputation_parts(
                        r.score as int,
                        r.contribution as int,
                        best_raw(reps, accts.take(i + 1)),
                    )
                }
            &&& forall|a: u64|
                reps.contains_key(a) && !accts.contains(a) ==> #[trigger] out.0[a] == reps[a]
        }),
    decreases accts.len(),
{
    lemma_eval_all_dom(reps, 0, accts, block);
    if accts.len() > 0 {
        let init = accts.drop_last();
        let a = accts.last();
        assert(init.no_duplicates());
        lemma_eval_all_explicit(reps, init, block);
        let prev = eval_all(reps, 0, init, block);
        let out = eval_all(reps, 0, accts, block);
        assert(out == eval_step(prev.0, prev.1, a, block));
        assert(accts.take(accts.len() as int) =~= accts);
        assert(!init.contains(a)) by {
            if init.contains(a) {
                let j = choose|j: int| 0 <= j < init.len() && init[j] == a;
                assert(accts[j] == accts[accts.len() - 1]);
            }
        }
        if reps.contains_key(a) {
            let r = reps[a];
            assert(prev.0[a] == r);
            let raw = r.score as int * r.contribution as int;
            assert(raw_of(r) == raw);
            assert(0 <= raw) by (nonlinear_arith)
                requires
                    raw == r.score as int * r.contribution as int,
                    r.score >= 0,
                    r.contribution >= 0,
            ;
            assert(raw * 100 <= u128::MAX);
            lemma_computed_is_reputation_parts(r, raised_max(r, prev.1));
        }
        assert forall|i: int|
            0 <= i < accts.len() && reps.contains_key(#[trigger] accts[i]) implies {
            let r = reps[accts[i]];
            let e = out.0[accts[i]];
            &&& e.score == r.score
            &&& e.contribution == r.contribution
            &&& e.last_evaluation == block
            &&& e.reputation.parts as int == reputation_parts(
                r.score as int,
                r.contribution as int,
                best_raw(reps, accts.take(i + 1)),
            )
        } by {
            if i < accts.len() - 1 {
                assert(init[i] == accts[i]);
                assert(init.take(i + 1) =~= accts.take(i + 1));
                assert(accts[i] != a);
            }
        }
        assert forall|b: u64| reps.contains_key(b) && !accts.contains(b) implies #[trigger] out.0[b]
            == reps[b] by {
            assert(!init.contains(b)) by {
                if init.contains(b) {
                    let j = choose|j: int| 0 <= j < init.len() && init[j] == b;
                    assert(accts[j] == b);
                }
            }
            assert(b != a);
        }
    }
}

/// Each payout of a round goes, in order, to the account just evaluated, and
/// is its new reputation times `unit`.
pub proof fn lemma_payouts_follow_evaluation(
    reps: Map<u64, Reputation>,
    max: u128,
    accts: Seq<u64>,
    block: u64,
    unit: u128,
    i: int,
)
    requires
        0 <= i < accts.len(),
    ensures
        payouts(reps, max, accts, block, unit)[i] == (
            accts[i],
            payout_of(eval_all(reps, max, accts.take(i + 1), block).0, accts[i], unit),
        ),
    decreases accts.len(),
{
    lemma_payouts_at_most_unit(reps, max, accts.drop_last(), block, unit);
    if i < accts.len() - 1 {
        lemma_payouts_follow_evaluation(reps, max, accts.drop_last(), block, unit, i);
        assert(accts.drop_last().take(i + 1) =~= accts.take(i + 1));
    } else {
        assert(accts.take(i + 1) =~= accts);
    }
}


/// Evaluating an account at `block` raises the best raw reputation to its raw
/// reputation `score * contribution` when that is higher, and recomputes its
/// reputation against the raised best; score and contribution are kept.
pub proof fn lemma_evaluated_explicit(r: Reputation, max: u128, block: u64)
    requires
        r.score * r.contribution * 100 <= u128::MAX,
        max < u128::MAX,
    ensures
        ({
            let raw = r.score as int * r.contribution as int;
            let best = if raw > max as int {
                raw
            } else {
                max as int
            };
            let e = evaluated(r, max, block);
            &&& raised_max(r, max) as int == best
            &&& e.score == r.score
            &&& e.contribution == r.contribution
            &&& e.last_evaluation == block
            &&& e.reputation.parts as int == reputation_parts(
                r.score as int,
                r.contribution as int,
                best,
            )
        }),
{
    let raw = r.score as int * r.contribution as int;
    assert(raw_of(r) == raw);
    assert(0 <= raw) by (nonlinear_arith)
        requires
            raw == r.score as int * r.contribution as int,
            r.score >= 0,
            r.contribution >= 0,
    ;
    lemma_computed_is_reputation_parts(r, raised_max(r, max));
}

/// The weight of a vote by `who` is its reputation against the current best
/// raw reputation, times the amount capped at 100: a punishment takes that
/// from the score (down to zero) and a reward adds it (up to `u128::MAX`);
/// neither touches the contribution. A voter whose reputation is at most one
/// half moves a large score by strictly less than the capped amount.
pub proof fn lemma_vote_weight_is_reputation_times_amount(
    p: &Pallet,
    who: u64,
    account: u64,
    amount: u128,
)
    requires
        p.reps().contains_key(who),
        p.reps().contains_key(account),
        p.reps()[who].score * p.reps()[who].contribution * 100 <= u128::MAX,
        p.max_raw() < u128::MAX,
    ensures
        ({
            let w = p.reps()[who];
            let parts = reputation_parts(w.score as int, w.contribution as int, p.max_raw() as int);
            let cut = scaled(cap_100(amount), parts);
            let old = p.reps()[account].score as int;
            &&& 0 <= parts <= 1_000_000_000
            &&& 0 <= cut <= cap_100(amount)
            &&& p.punished(who, account, amount).score == (if old >= cut {
                old - cut
            } else {
                0
            })
            &&& p.rewarded(who, account, amount).score == (if old + cut <= u128::MAX {
                old + cut
            } else {
                u128::MAX as int
            })
            &&& p.punished(who, account, amount).contribution == p.reps()[account].contribution
            &&& p.rewarded(who, account, amount).contribution == p.reps()[account].contribution
            &&& (2 * parts <= 1_000_000_000 && cap_100(amount) > 0 && old >= 100) ==> p.punished(
                who,
                account,
                amount,
            ).score > old - cap_100(amount)
        }),
{
    let w = p.reps()[who];
    let r = computed(w, p.max_raw());
    let num = w.score as int * w.contribution as int * 100;
    let den = p.max_raw() as int + 1;
    assert(raw_of(w) * 100 == num);
    assert(0 <= num) by (nonlinear_arith)
        requires
            num == w.score as int * w.contribution as int * 100,
            w.score >= 0,
            w.contribution >= 0,
    ;
    let parts = reputation_parts(w.score as int, w.contribution as int, p.max_raw() as int);
    if num <= den {
        assert(1_000_000_000 * num / den <= 1_000_000_000) by (nonlinear_arith)
            requires
                0 <= num <= den,
                den > 0,
        ;
        assert(0 <= 1_000_000_000 * num / den) by (nonlinear_arith)
            requires
                0 <= num,
                den > 0,
        ;
    }
    assert(r.parts as int == parts);
    assert(0 <= parts <= 1_000_000_000);
    let c = cap_100(amount);
    assert(capped_vote(amount) as int == c);
    assert(crate::perbill::capped(r.parts) == r.parts);
    let prod = c * parts;
    assert(0 <= prod <= c * 1_000_000_000) by (nonlinear_arith)
        requires
            prod == c * parts,
            0 <= parts <= 1_000_000_000,
            0 <= c <= 100,
    ;
    let cut = scaled(c, parts);
    assert(0 <= cut <= c) by (nonlinear_arith)
        requires
            0 <= prod <= c * 1_000_000_000,
            0 <= c,
            cut == prod / 1_000_000_000 + (if prod % 1_000_000_000 > 500_000_000 {
                1int
            } else {
                0int
            }),
    ;
    assert(spec_perbill_mul(r.parts, capped_vote(amount)) as int == cut);
    if 2 * parts <= 1_000_000_000 && c > 0 {
        assert(cut < c) by (nonlinear_arith)
            requires
                prod == c * parts,
                0 <= 2 * parts <= 1_000_000_000,
                0 < c <= 100,
                cut == prod / 1_000_000_000 + (if prod % 1_000_000_000 > 500_000_000 {
                    1int
                } else {
                    0int
                }),
        ;
    }
}

/// A slash of `amount` lowers the score by exactly `100 * amount`, down to
/// zero, and keeps the contribution.
pub proof fn lemma_slash_cuts_a_hundred_per_unit(p: &Pallet, account: u64, amount: u128)
    requires
        100 * amount <= u128::MAX,
    ensures
        p.slashed(account, amount).score == (if p.reps()[account].score >= 100 * amount {
            p.reps()[account].score - 100 * amount
        } else {
            0
        }),
        p.slashed(account, amount).contribution == p.reps()[account].contribution,
{
}

/// Whether `total` plus `i` times `step` is below `limit` in at least one of
/// its two components.
pub open spec fn below_limit(total: Weight, step: Weight, limit: Weight, i: int) -> bool {
    total.ref_time + i * step.ref_time < limit.ref_time || total.proof_size + i * step.proof_size
        < limit.proof_size
}

/// The evaluation loop from `total`, with at most `n` accounts, takes the
/// largest `k <= n` such that before each of the first `k` steps the weight
/// used is below `limit` in some component; it ends with `total + k * step`.
pub proof fn lemma_rounds_explicit(total: Weight, limit: Weight, step: Weight, n: nat)
    requires
        rounds_fit(total, limit, step, n),
    ensures
        ({
            let k = rounds(total, limit, step, n);
            &&& k <= n
            &&& forall|i: int| 0 <= i < k ==> #[trigger] below_limit(total, step, limit, i)
            &&& k < n ==> !below_limit(total, step, limit, k as int)
            &&& final_total(total, limit, step, n).ref_time == total.ref_time + k * step.ref_time
            &&& final_total(total, limit, step, n).proof_size == total.proof_size + k
                * step.proof_size
        }),
    decreases n,
{
    if n == 0 || !total.spec_any_lt(limit) {
        assert(!total.spec_any_lt(limit) ==> !below_limit(total, step, limit, 0));
    } else {
        let next = total.spec_add(step);
        lemma_rounds_explicit(next, limit, step, (n - 1) as nat);
        let k = rounds(total, limit, step, n);
        let k1 = rounds(next, limit, step, (n - 1) as nat);
        assert(k == k1 + 1);
        assert forall|i: int| 0 <= i < k implies #[trigger] below_limit(total, step, limit, i) by {
            if i > 0 {
                assert(below_limit(next, step, limit, i - 1));
                assert(next.ref_time + (i - 1) * step.ref_time == total.ref_time + i
                    * step.ref_time) by (nonlinear_arith)
                    requires
                        next.ref_time == total.ref_time + step.ref_time,
                ;
                assert(next.proof_size + (i - 1) * step.proof_size == total.proof_size + i
                    * step.proof_size) by (nonlinear_arith)
                    requires
                        next.proof_size == total.proof_size + step.proof_size,
                ;
            } else {
                assert(below_limit(total, step, limit, 0));
            }
        }
        assert(next.ref_time + k1 * step.ref_time == total.ref_time + k * step.ref_time)
            by (nonlinear_arith)
            requires
                next.ref_time == total.ref_time + step.ref_time,
                k == k1 + 1,
        ;
        assert(next.proof_size + k1 * step.proof_size == total.proof_size + k * step.proof_size)
            by (nonlinear_arith)
            requires
                next.proof_size == total.proof_size + step.proof_size,
                k == k1 + 1,
        ;
        if k < n {
            assert(!below_limit(next, step, limit, k1 as int));
        }
    }
}

/// Accounts in the order that popping them off the end of `q` gives, `k` of them.
pub open spec fn popped(q: Seq<u64>, k: nat) -> Seq<u64> {
    Seq::new(k, |i: int| q[q.len() - 1 - i])
}

/// How many accounts the evaluation loop takes from a queue of `n` accounts:
/// it goes on while some component of `total` is below `limit`, adding `step`
/// each time.
pub open spec fn rounds(total: Weight, limit: Weight, step: Weight, n: nat) -> nat
    decreases n,
{
    if n == 0 || !total.spec_any_lt(limit) {
        0
    } else {
        1 + rounds(total.spec_add(step), limit, step, (n - 1) as nat)
    }
}

/// The weight that the evaluation loop ends with.
pub open spec fn final_total(total: Weight, limit: Weight, step: Weight, n: nat) -> Weight
    decreases n,
{
    if n == 0 || !total.spec_any_lt(limit) {
        total
    } else {
        final_total(total.spec_add(step), limit, step, (n - 1) as nat)
    }
}

/// Whether every addition of the evaluation loop fits in both components.
pub open spec fn rounds_fit(total: Weight, limit: Weight, step: Weight, n: nat) -> bool
    decreases n,
{
    if n == 0 || !total.spec_any_lt(limit) {
        true
    } else {
        total.add_fits(step) && rounds_fit(total.spec_add(step), limit, step, (n - 1) as nat)
    }
}

/// Reputations and best raw reputation after evaluating `a` at `block`
/// (nothing changes for an unknown account).
pub open spec fn eval_step(reps: Map<u64, Reputation>, max: u128, a: u64, block: u64) -> (Map<
    u64,
    Reputation,
>, u128) {
    if reps.contains_key(a) {
        (reps.insert(a, evaluated(reps[a], max, block)), raised_max(reps[a], max))
    } else {
        (reps, max)
    }
}

/// Reputations and best raw reputation after evaluating `accts` in order.
pub open spec fn eval_all(reps: Map<u64, Reputation>, max: u128, accts: Seq<u64>, block: u64) -> (
    Map<u64, Reputation>,
    u128,
)
    decreases accts.len(),
{
    if accts.len() == 0 {
        (reps, max)
    } else {
        let prev = eval_all(reps, max, accts.drop_last(), block);
        eval_step(prev.0, prev.1, accts.last(), block)
    }
}

/// Whether evaluating `accts` in order stays within `u128`.
pub open spec fn eval_all_fit(reps: Map<u64, Reputation>, max: u128, accts: Seq<u64>, block: u64) -> bool
    decreases accts.len(),
{
    if accts.len() == 0 {
        true
    } else {
        let prev = eval_all(reps, max, accts.drop_last(), block);
        &&& eval_all_fit(reps, max, accts.drop_last(), block)
        &&& prev.0.contains_key(accts.last()) ==> eval_fits(prev.0[accts.last()], prev.1)
    }
}

/// The payout of `a`: its reputation (none if unknown) times `unit`.
pub open spec fn payout_of(reps: Map<u64, Reputation>, a: u64, unit: u128) -> u128 {
    spec_perbill_mul(if reps.contains_key(a) { reps[a].reputation.parts } else { 0 }, unit)
}

/// The payouts made while evaluating `accts` in order, each right after its
/// account's evaluation.
pub open spec fn payouts(
    reps: Map<u64, Reputation>,
    max: u128,
    accts: Seq<u64>,
    block: u64,
    unit: u128,
) -> Seq<(u64, u128)>
    decreases accts.len(),
{
    if accts.len() == 0 {
        Seq::empty()
    } else {
        let now = eval_all(reps, max, accts, block);
        payouts(reps, max, accts.drop_last(), block, unit).push(
            (accts.last(), payout_of(now.0, accts.last(), unit)),
        )
    }
}

/// `eval_all_fit` holds of every prefix of a sequence it holds of.
pub proof fn lemma_eval_all_fit_prefix(
    reps: Map<u64, Reputation>,
    max: u128,
    accts: Seq<u64>,
    block: u64,
    j: int,
)
    requires
        eval_all_fit(reps, max, accts, block),
        0 <= j <= accts.len(),
    ensures
        eval_all_fit(reps, max, accts.take(j), block),
    decreases accts.len(),
{
    if j == accts.len() {
        assert(accts.take(j) =~= accts);
    } else {
        assert(accts.drop_last().take(j) =~= accts.take(j));
        lemma_eval_all_fit_prefix(reps, max, accts.drop_last(), block, j);
    }
}

/// Evaluation keeps every known account known.
pub proof fn lemma_eval_all_dom(
    reps: Map<u64, Reputation>,
    max: u128,
    accts: Seq<u64>,
    block: u64,
)
    ensures
        eval_all(reps, max, accts, block).0.dom() == reps.dom(),
    decreases accts.len(),
{
    if accts.len() > 0 {
        lemma_eval_all_dom(reps, max, accts.drop_last(), block);
        let prev = eval_all(reps, max, accts.drop_last(), block);
        assert(eval_step(prev.0, prev.1, accts.last(), block).0.dom() =~= prev.0.dom());
    }
}


/// The evaluation loop takes at most `n` accounts.
pub proof fn lemma_rounds_le(total: Weight, limit: Weight, step: Weight, n: nat)
    ensures
        rounds(total, limit, step, n) <= n,
    decreases n,
{
    if n > 0 && total.spec_any_lt(limit) {
        lemma_rounds_le(total.spec_add(step), limit, step, (n - 1) as nat);
    }
}

/// The reputation pallet's storage.
pub struct Pallet {
    config: Config,
    reputations: HashMap<u64, Reputation>,
    max_raw_reputation: u128,
    account_queue: Vec<u64>,
    evaluation_queue: Vec<u64>,
    events: Vec<Event>,
}

impl Pallet {
    /// The pallet's parameters.
    pub closed spec fn conf(&self) -> Config {
        self.config
    }

    /// Reputations by account.
    pub closed spec fn reps(&self) -> Map<u64, Reputation> {
        self.reputations@
    }

    /// The best raw reputation seen since the last reset.
    pub closed spec fn max_raw(&self) -> u128 {
        self.max_raw_reputation
    }

    /// Every account that ever contributed, in order of arrival.
    pub closed spec fn acct_queue(&self) -> Seq<u64> {
        self.account_queue@
    }

    /// Accounts still to be evaluated in the current round.
    pub closed spec fn eval_queue(&self) -> Seq<u64> {
        self.evaluation_queue@
    }

    /// Events deposited so far, oldest first.
    pub closed spec fn event_log(&self) -> Seq<Event> {
        self.events@
    }

    /// Storage invariant: the queues are bounded, and hold known accounts;
    /// the account queue holds each account once.
    pub open spec fn wf(&self) -> bool {
        &&& self.acct_queue().len() <= MAX_USERS
        &&& self.eval_queue().len() <= MAX_USERS
        &&& self.acct_queue().no_duplicates()
        &&& forall|i: int|
            0 <= i < self.acct_queue().len() ==> #[trigger] self.reps().contains_key(
                self.acct_queue()[i],
            )
        &&& forall|i: int|
            0 <= i < self.eval_queue().len() ==> #[trigger] self.reps().contains_key(
                self.eval_queue()[i],
            )
        &&& reputations_bounded(self.reps())
    }

    /// Everything but the reputations and the best raw reputation is as in `other`.
    pub open spec fn same_queues_and_events(&self, other: &Pallet) -> bool {
        &&& self.conf() == other.conf()
        &&& self.acct_queue() == other.acct_queue()
        &&& self.eval_queue() == other.eval_queue()
        &&& self.event_log() == other.event_log()
    }

    /// Empty storage with the given parameters.
    pub fn new(config: Config) -> (p: Pallet)
        ensures
            p.wf(),
            p.conf() == config,
            p.reps() == Map::<u64, Reputation>::empty(),
            p.max_raw() == 0,
            p.acct_queue() == Seq::<u64>::empty(),
            p.eval_queue() == Seq::<u64>::empty(),
            p.event_log() == Seq::<Event>::empty(),
    {
        Pallet {
            config,
            reputations: HashMap::new(),
            max_raw_reputation: 0,
            account_queue: Vec::new(),
            evaluation_queue: Vec::new(),
            events: Vec::new(),
        }
    }

    /// The reputation of `account`, if it ever contributed.
    pub fn reputation(&self, account: u64) -> (r: Option<Reputation>)
        ensures
            r == (if self.reps().contains_key(account) {
                Some(self.reps()[account])
            } else {
                None
            }),
    {
        match self.reputations.get(&account) {
            Some(r) => Some(*r),
            None => None,
        }
    }

    /// The best raw reputation seen since the last reset.
    pub fn max_raw_reputation(&self) -> (r: u128)
        ensures
            r == self.max_raw(),
    {
        self.max_raw_reputation
    }

    /// Every account that ever contributed, in order of arrival.
    pub fn account_queue(&self) -> (r: &Vec<u64>)
        ensures
            r@ == self.acct_queue(),
    {
        &self.account_queue
    }

    /// Accounts still to be evaluated in the current round.
    pub fn evaluation_queue(&self) -> (r: &Vec<u64>)
        ensures
            r@ == self.eval_queue(),
    {
        &self.evaluation_queue
    }

    /// Events deposited so far, oldest first.
    pub fn events(&self) -> (r: &Vec<Event>)
        ensures
            r@ == self.event_log(),
    {
        &self.events
    }

    /// The most recent event, if any.
    pub fn last_event(&self) -> (r: Option<Event>)
        ensures
            r == (if self.event_log().len() == 0 {
                None
            } else {
                Some(self.event_log().last())
            }),
    {
        if self.events.len() == 0 {
            None
        } else {
            Some(self.events[self.events.len() - 1])
        }
    }

    /// The pallet's parameters.
    pub fn config(&self) -> (c: Config)
        ensures
            c == self.conf(),
    {
        self.config
    }

    /// The reputation of `reputation` against the current best raw reputation.
    fn compute_reputation(&self, reputation: Reputation) -> (p: Perbill)
        requires
            fits(reputation, self.max_raw()),
        ensures
            p == computed(reputation, self.max_raw()),
            p.parts <= ACCURACY,
    {
        let raw_reputation = reputation.score * reputation.contribution;
        Perbill::from_rational(raw_reputation * 100, self.max_raw_reputation + 1)
    }

    /// Whether `next` is this storage after one more contribution of `account`:
    /// a known account's contribution grows by one; a new account starts with
    /// a contribution and a score of one and joins the account queue while it
    /// has room.
    pub open spec fn contribution_recorded(&self, next: &Pallet, account: u64) -> bool {
        &&& next.wf()
        &&& next.conf() == self.conf()
        &&& next.max_raw() == self.max_raw()
        &&& next.eval_queue() == self.eval_queue()
        &&& next.event_log() == self.event_log()
        &&& if self.reps().contains_key(account) {
            let r = self.reps()[account];
            &&& next.reps() == self.reps().insert(
                account,
                Reputation {
                    contribution: (r.contribution + 1) as u128,
                    score: r.score,
                    reputation: r.reputation,
                    last_evaluation: r.last_evaluation,
                },
            )
            &&& next.acct_queue() == self.acct_queue()
        } else {
            &&& next.reps() == self.reps().insert(account, newcomer())
            &&& next.acct_queue() == if self.acct_queue().len() < MAX_USERS {
                self.acct_queue().push(account)
            } else {
                self.acct_queue()
            }
        }
    }

    /// Records one more contribution of `account`; an account seen for the first
    /// time starts with a contribution and a score of one, and joins the account
    /// queue while it has room.
    pub fn add_contribution(&mut self, account: &u64)
        requires
            old(self).wf(),
            old(self).reps().contains_key(*account) ==> old(self).reps()[*account].contribution
                < u128::MAX,
        ensures
            old(self).contribution_recorded(&*final(self), *account),
    {
        let account = *account;
        match self.reputations.get(&account) {
            Some(r) => {
                let mut r = *r;
                r.contribution = r.contribution + 1;
                self.reputations.insert(account, r);
            },
            None => {
                let r = Reputation {
                    contribution: 1,
                    score: 1,
                    reputation: Perbill::zero(),
                    last_evaluation: 0,
                };
                self.reputations.insert(account, r);
                if self.account_queue.len() < MAX_USERS {
                    self.account_queue.push(account);
                }
            },
        }
    }

    /// Re-evaluates `account` at `block`: raises the best raw reputation to the
    /// account's raw reputation, then recomputes the account's reputation.
    fn do_evaluate_reputation(&mut self, account: u64, block: u64) -> (res: Result<
        (),
        DispatchError,
    >)
        requires
            old(self).wf(),
            old(self).reps().contains_key(account) ==> eval_fits(
                old(self).reps()[account],
                old(self).max_raw(),
            ),
        ensures
            final(self).wf(),
            final(self).same_queues_and_events(old(self)),
            old(self).reps().contains_key(account) ==> {
                let r = old(self).reps()[account];
                &&& res is Ok
                &&& final(self).reps() == old(self).reps().insert(
                    account,
                    evaluated(r, old(self).max_raw(), block),
                )
                &&& final(self).max_raw() == raised_max(r, old(self).max_raw())
            },
            !old(self).reps().contains_key(account) ==> {
                &&& res == Err::<(), DispatchError>(
                    DispatchError::Reward(Error::AccountNotFound),
                )
                &&& *final(self) == *old(self)
            },
    {
        match self.reputations.get(&account) {
            Some(r) => {
                let mut r = *r;
                let raw_reputation = r.score * r.contribution;
                if raw_reputation > self.max_raw_reputation {
                    self.max_raw_reputation = raw_reputation;
                }
                r.reputation = self.compute_reputation(r);
                r.last_evaluation = block;
                proof {
                    lemma_insert_bounded(self.reps(), account, r);
                }
                self.reputations.insert(account, r);
                Ok(())
            },
            None => Err(DispatchError::Reward(Error::AccountNotFound)),
        }
    }


    /// Whether evaluating `r` against `max` stays within `u128`.
    fn eval_fits_exec(r: Reputation, max: u128) -> (b: bool)
        ensures
            b == eval_fits(r, max),
    {
        match r.score.checked_mul(r.contribution) {
            None => false,
            Some(raw) => match raw.checked_mul(100) {
                None => false,
                Some(_) => {
                    let raised = if raw > max { raw } else { max };
                    raised < u128::MAX
                },
            },
        }
    }

    /// Whether computing `r`'s reputation against `max` stays within `u128`.
    fn fits_exec(r: Reputation, max: u128) -> (b: bool)
        ensures
            b == fits(r, max),
    {
        match r.score.checked_mul(r.contribution) {
            None => false,
            Some(raw) => match raw.checked_mul(100) {
                None => false,
                Some(_) => max < u128::MAX,
            },
        }
    }

    /// Whether `reward` can run on these arguments without leaving `u128`.
    pub fn can_reward(&self, origin: Origin, account: u64, amount: u128) -> (b: bool)
        ensures
            b == self.reward_fits(origin, account, amount),
    {
        self.can_vote(origin, account, amount, true)
    }

    /// Whether `punish` can run on these arguments without leaving `u128`.
    pub fn can_punish(&self, origin: Origin, account: u64, amount: u128) -> (b: bool)
        ensures
            b == self.punish_fits(origin, account, amount),
    {
        self.can_vote(origin, account, amount, false)
    }

    /// Shared check of `can_reward` (`up`) and `can_punish`.
    fn can_vote(&self, origin: Origin, account: u64, amount: u128, up: bool) -> (b: bool)
        ensures
            up ==> b == self.reward_fits(origin, account, amount),
            !up ==> b == self.punish_fits(origin, account, amount),
    {
        let who = match origin {
            Origin::Signed(who) => who,
            _ => { return true },
        };
        if who == account {
            return true;
        }
        let rewarder = match self.reputations.get(&who) {
            Some(r) => *r,
            None => { return true },
        };
        let mut reputation = match self.reputations.get(&account) {
            Some(r) => *r,
            None => { return true },
        };
        if !Self::fits_exec(rewarder, self.max_raw_reputation) {
            return false;
        }
        let amount = if amount < MAX_VOTE { amount } else { MAX_VOTE };
        let weight = self.compute_reputation(rewarder).mul(amount);
        if up {
            reputation.score = reputation.score.saturating_add(weight);
            Self::eval_fits_exec(reputation, self.max_raw_reputation)
        } else {
            reputation.score = reputation.score.saturating_sub(weight);
            Self::fits_exec(reputation, self.max_raw_reputation)
        }
    }

    /// Whether `slash` can run on these arguments without leaving `u128`.
    pub fn can_slash(&self, origin: Origin, account: u64, amount: u128) -> (b: bool)
        ensures
            b == self.slash_fits(origin, account, amount),
    {
        if origin != Origin::Root {
            return true;
        }
        let mut reputation = match self.reputations.get(&account) {
            Some(r) => *r,
            None => { return true },
        };
        match amount.checked_mul(100) {
            None => false,
            Some(cut) => {
                reputation.score = reputation.score.saturating_sub(cut);
                Self::eval_fits_exec(reputation, self.max_raw_reputation)
            },
        }
    }

    /// Whether `evaluate_reputation` can run on these arguments without
    /// leaving `u128`.
    pub fn can_evaluate(&self, origin: Origin, account: u64) -> (b: bool)
        ensures
            b == (signer(origin) is Some && self.reps().contains_key(account) ==> eval_fits(
                self.reps()[account],
                self.max_raw(),
            )),
    {
        if origin == Origin::Root || origin == Origin::Unsigned {
            return true;
        }
        match self.reputations.get(&account) {
            Some(r) => Self::eval_fits_exec(*r, self.max_raw_reputation),
            None => true,
        }
    }

    /// Whether an evaluation round at `block` with `remaining_weight`
    /// available stays within `u64` weights and `u128` reputations.
    pub fn can_process_evaluation_queue(&self, remaining_weight: Weight, block: u64) -> (b: bool)
        ensures
            b == self.processing_fits(remaining_weight, block),
    {
        let w = self.config.weights;
        let step = w.process_evaluation_queue_two.saturating_sub(w.process_evaluation_queue_one);
        let limit = remaining_weight.saturating_sub(step);
        let n = self.account_queue.len();
        let ghost q = self.acct_queue();
        let ghost reps0 = self.reps();
        let ghost base = w.do_process_evaluation_queue;
        let mut total = w.do_process_evaluation_queue;
        let mut reps = self.reputations.clone();
        let mut max: u128 = 0;
        let mut i: usize = 0;
        proof {
            assert(popped(q, 0) =~= Seq::<u64>::empty());
        }
        loop
            invariant
                n == q.len(),
                q == self.acct_queue(),
                reps0 == self.reps(),
                base == self.conf().weights.do_process_evaluation_queue,
                step == self.conf().weights.process_evaluation_queue_two.spec_saturating_sub(
                    self.conf().weights.process_evaluation_queue_one,
                ),
                limit == remaining_weight.spec_saturating_sub(step),
                i <= n,
                rounds(base, limit, step, n as nat) == i + rounds(total, limit, step, (n - i) as nat),
                rounds_fit(base, limit, step, n as nat) == rounds_fit(total, limit, step, (n - i) as nat),
                eval_all_fit(reps0, 0, popped(q, i as nat), block),
                ({
                    let now = eval_all(reps0, 0, popped(q, i as nat), block);
                    reps@ == now.0 && max == now.1
                }),
            decreases n - i,
        {
            if i == n || !total.any_lt(limit) {
                return true;
            }
            if total.ref_time > u64::MAX - step.ref_time || total.proof_size > u64::MAX
                - step.proof_size {
                return false;
            }
            let a = self.account_queue[n - 1 - i];
            proof {
                let before = popped(q, i as nat);
                let after = popped(q, (i + 1) as nat);
                assert(after.drop_last() =~= before);
                assert(after.last() == a);
                let k = rounds(base, limit, step, n as nat);
                if k >= i + 1 {
                    assert(popped(q, k).take(i + 1) =~= after);
                }
            }
            match reps.get(&a) {
                Some(r) => {
                    let r = *r;
                    if !Self::eval_fits_exec(r, max) {
                        proof {
                            let k = rounds(base, limit, step, n as nat);
                            if eval_all_fit(reps0, 0, popped(q, k), block) {
                                lemma_eval_all_fit_prefix(reps0, 0, popped(q, k), block, i + 1);
                            }
                        }
                        return false;
                    }
                    let raw = r.score * r.contribution;
                    let raised = if raw > max { raw } else { max };
                    let e = Reputation {
                        contribution: r.contribution,
                        score: r.score,
                        reputation: Perbill::from_rational(raw * 100, raised + 1),
                        last_evaluation: block,
                    };
                    reps.insert(a, e);
                    max = raised;
                },
                None => {},
            }
            total = total.add(step);
            i = i + 1;
        }
    }

    /// Whether `next` is this storage after `account` was evaluated at
    /// `block`: its reputation is recomputed against the best raw reputation,
    /// raised to its own raw reputation if that is higher.
    pub open spec fn evaluation_done(&self, next: &Pallet, account: u64, block: u64) -> bool {
        let r = self.reps()[account];
        &&& next.same_queues_and_events(self)
        &&& next.reps() == self.reps().insert(account, evaluated(r, self.max_raw(), block))
        &&& next.max_raw() == raised_max(r, self.max_raw())
    }

    /// Whether `next` knows the same accounts as this storage, each with the
    /// same contribution.
    pub open spec fn contributions_kept(&self, next: &Pallet) -> bool {
        same_contributions(self.reps(), next.reps())
    }

    /// Re-evaluates `account` at `block` on behalf of any signed origin.
    pub fn evaluate_reputation(&mut self, origin: Origin, account: u64, block: u64) -> (res:
        Result<(), DispatchError>)
        requires
            old(self).wf(),
            signer(origin) is Some && old(self).reps().contains_key(account) ==> eval_fits(
                old(self).reps()[account],
                old(self).max_raw(),
            ),
        ensures
            final(self).wf(),
            signer(origin) is None ==> res == Err::<(), DispatchError>(DispatchError::BadOrigin),
            signer(origin) is Some && !old(self).reps().contains_key(account) ==> res == Err::<
                (),
                DispatchError,
            >(DispatchError::Reward(Error::AccountNotFound)),
            res is Err ==> *final(self) == *old(self),
            res is Ok <==> signer(origin) is Some && old(self).reps().contains_key(account),
            res is Ok ==> old(self).evaluation_done(&*final(self), account, block),
            old(self).contributions_kept(&*final(self)),
    {
        let _who = ensure_signed(origin)?;
        let res = self.do_evaluate_reputation(account, block);
        proof {
            if old(self).reps().contains_key(account) {
                lemma_insert_same_contribution(
                    old(self).reps(),
                    account,
                    evaluated(old(self).reps()[account], old(self).max_raw(), block),
                );
            }
        }
        res
    }

    /// The error, if any, that a vote of `origin` on `account` ends with.
    pub open spec fn vote_error(&self, origin: Origin, account: u64) -> Option<DispatchError> {
        match signer(origin) {
            None => Some(DispatchError::BadOrigin),
            Some(who) => if who == account {
                Some(DispatchError::Reward(Error::CannotRewardItself))
            } else if !self.reps().contains_key(who) {
                Some(DispatchError::Reward(Error::AccountNeedToParticipateBeforeVoting))
            } else if !self.reps().contains_key(account) {
                Some(DispatchError::Reward(Error::AccountNotFound))
            } else {
                None
            },
        }
    }

    /// The weight of a vote of `who`: its reputation times the capped amount.
    pub open spec fn vote_weight(&self, who: u64, amount: u128) -> u128 {
        spec_perbill_mul(computed(self.reps()[who], self.max_raw()).parts, capped_vote(amount))
    }

    /// `account`'s reputation once `who`'s reward has been added to its score.
    pub open spec fn rewarded(&self, who: u64, account: u64, amount: u128) -> Reputation {
        let r = self.reps()[account];
        with_score(r, r.score.saturating_add(self.vote_weight(who, amount)))
    }

    /// `account`'s reputation once `who`'s punishment has been taken from its score.
    pub open spec fn punished(&self, who: u64, account: u64, amount: u128) -> Reputation {
        let r = self.reps()[account];
        with_score(r, r.score.saturating_sub(self.vote_weight(who, amount)))
    }

    /// `account`'s reputation once a slash of `amount` has been taken from its score.
    pub open spec fn slashed(&self, account: u64, amount: u128) -> Reputation {
        let r = self.reps()[account];
        with_score(r, r.score.saturating_sub((100 * amount) as u128))
    }

    /// Whether a reward stays within `u128` (the error cases do no arithmetic).
    pub open spec fn reward_fits(&self, origin: Origin, account: u64, amount: u128) -> bool {
        self.vote_error(origin, account) is None ==> {
            let who = signer(origin)->0;
            &&& fits(self.reps()[who], self.max_raw())
            &&& eval_fits(self.rewarded(who, account, amount), self.max_raw())
        }
    }

    /// Whether a punishment stays within `u128` (the error cases do no arithmetic).
    pub open spec fn punish_fits(&self, origin: Origin, account: u64, amount: u128) -> bool {
        self.vote_error(origin, account) is None ==> {
            let who = signer(origin)->0;
            &&& fits(self.reps()[who], self.max_raw())
            &&& fits(self.punished(who, account, amount), self.max_raw())
        }
    }

    /// Whether a slash stays within `u128` (the error cases do no arithmetic).
    pub open spec fn slash_fits(&self, origin: Origin, account: u64, amount: u128) -> bool {
        origin == Origin::Root && self.reps().contains_key(account) ==> {
            &&& 100 * amount <= u128::MAX
            &&& eval_fits(self.slashed(account, amount), self.max_raw())
        }
    }

    /// A signed account other than `account` raises `account`'s score by its own
    /// reputation times `amount` (capped at `MAX_VOTE`), then `account` is
    /// re-evaluated at `block`. Both accounts must have contributed.
    pub fn reward(&mut self, origin: Origin, account: u64, amount: u128, block: u64) -> (res:
        Result<(), DispatchError>)
        requires
            old(self).wf(),
            old(self).reward_fits(origin, account, amount),
        ensures
            final(self).wf(),
            old(self).contributions_kept(&*final(self)),
            match old(self).vote_error(origin, account) {
                Some(e) => res == Err::<(), DispatchError>(e) && *final(self) == *old(self),
                None => {
                    let who = signer(origin)->0;
                    let r = old(self).rewarded(who, account, amount);
                    &&& res is Ok
                    &&& final(self).reps() == old(self).reps().insert(
                        account,
                        evaluated(r, old(self).max_raw(), block),
                    )
                    &&& final(self).max_raw() == raised_max(r, old(self).max_raw())
                    &&& final(self).conf() == old(self).conf()
                    &&& final(self).acct_queue() == old(self).acct_queue()
                    &&& final(self).eval_queue() == old(self).eval_queue()
                    &&& final(self).event_log() == logged(
                        old(self).event_log(),
                        block,
                        Event::AccountRewarded { account, who, amount: capped_vote(amount) },
                    )
                },
            },
    {
        let who = ensure_signed(origin)?;
        if who == account {
            return Err(DispatchError::Reward(Error::CannotRewardItself));
        }
        let amount = if amount < MAX_VOTE { amount } else { MAX_VOTE };
        let rewarder = match self.reputations.get(&who) {
            Some(r) => *r,
            None => {
                return Err(
                    DispatchError::Reward(Error::AccountNeedToParticipateBeforeVoting),
                )
            },
        };
        let mut reputation = match self.reputations.get(&account) {
            Some(r) => *r,
            None => { return Err(DispatchError::Reward(Error::AccountNotFound)) },
        };
        let rewarder_reputation = self.compute_reputation(rewarder);
        reputation.score = reputation.score.saturating_add(rewarder_reputation.mul(amount));
        let raw_reputation = reputation.score * reputation.contribution;
        if raw_reputation > self.max_raw_reputation {
            self.max_raw_reputation = raw_reputation;
        }
        reputation.reputation = self.compute_reputation(reputation);
        reputation.last_evaluation = block;
        proof {
            lemma_insert_bounded(self.reps(), account, reputation);
            lemma_insert_same_contribution(self.reps(), account, reputation);
        }
        self.reputations.insert(account, reputation);
        if block != 0 {
            self.events.push(Event::AccountRewarded { account, who, amount });
        }
        Ok(())
    }

    /// A signed account other than `account` lowers `account`'s score by its own
    /// reputation times `amount` (capped at `MAX_VOTE`), then recomputes
    /// `account`'s reputation at `block` against the unchanged best raw
    /// reputation. Both accounts must have contributed.
    pub fn punish(&mut self, origin: Origin, account: u64, amount: u128, block: u64) -> (res:
        Result<(), DispatchError>)
        requires
            old(self).wf(),
            old(self).punish_fits(origin, account, amount),
        ensures
            final(self).wf(),
            old(self).contributions_kept(&*final(self)),
            match old(self).vote_error(origin, account) {
                Some(e) => res == Err::<(), DispatchError>(e) && *final(self) == *old(self),
                None => {
                    let who = signer(origin)->0;
                    let r = old(self).punished(who, account, amount);
                    &&& res is Ok
                    &&& final(self).reps() == old(self).reps().insert(
                        account,
                        Reputation {
                            contribution: r.contribution,
                            score: r.score,
                            reputation: computed(r, old(self).max_raw()),
                            last_evaluation: block,
                        },
                    )
                    &&& final(self).max_raw() == old(self).max_raw()
                    &&& final(self).conf() == old(self).conf()
                    &&& final(self).acct_queue() == old(self).acct_queue()
                    &&& final(self).eval_queue() == old(self).eval_queue()
                    &&& final(self).event_log() == logged(
                        old(self).event_log(),
                        block,
                        Event::AccountPunished { account, who, amount: capped_vote(amount) },
                    )
                },
            },
    {
        let who = ensure_signed(origin)?;
        if who == account {
            return Err(DispatchError::Reward(Error::CannotRewardItself));
        }
        let amount = if amount < MAX_VOTE { amount } else { MAX_VOTE };
        let rewarder = match self.reputations.get(&who) {
            Some(r) => *r,
            None => {
                return Err(
                    DispatchError::Reward(Error::AccountNeedToParticipateBeforeVoting),
                )
            },
        };
        let mut reputation = match self.reputations.get(&account) {
            Some(r) => *r,
            None => { return Err(DispatchError::Reward(Error::AccountNotFound)) },
        };
        let rewarder_reputation = self.compute_reputation(rewarder);
        reputation.score = reputation.score.saturating_sub(rewarder_reputation.mul(amount));
        reputation.reputation = self.compute_reputation(reputation);
        reputation.last_evaluation = block;
        proof {
            lemma_insert_bounded(self.reps(), account, reputation);
            lemma_insert_same_contribution(self.reps(), account, reputation);
        }
        self.reputations.insert(account, reputation);
        if block != 0 {
            self.events.push(Event::AccountPunished { account, who, amount });
        }
        Ok(())
    }

    /// The root origin lowers `account`'s score by `100 * amount`, then
    /// `account` is re-evaluated at `block`.
    pub fn slash(&mut self, origin: Origin, account: u64, amount: u128, block: u64) -> (res:
        Result<(), DispatchError>)
        requires
            old(self).wf(),
            old(self).slash_fits(origin, account, amount),
        ensures
            final(self).wf(),
            old(self).contributions_kept(&*final(self)),
            origin != Origin::Root ==> res == Err::<(), DispatchError>(DispatchError::BadOrigin),
            origin == Origin::Root && !old(self).reps().contains_key(account) ==> res == Err::<
                (),
                DispatchError,
            >(DispatchError::Reward(Error::AccountNotFound)),
            res is Err ==> *final(self) == *old(self),
            res is Ok <==> origin == Origin::Root && old(self).reps().contains_key(account),
            res is Ok ==> {
                let r = old(self).slashed(account, amount);
                &&& final(self).same_queues_and_events(old(self))
                &&& final(self).reps() == old(self).reps().insert(
                    account,
                    evaluated(r, old(self).max_raw(), block),
                )
                &&& final(self).max_raw() == raised_max(r, old(self).max_raw())
            },
    {
        ensure_root(origin)?;
        let mut reputation = match self.reputations.get(&account) {
            Some(r) => *r,
            None => { return Err(DispatchError::Reward(Error::AccountNotFound)) },
        };
        reputation.score = reputation.score.saturating_sub(100 * amount);
        let raw_reputation = reputation.score * reputation.contribution;
        if raw_reputation > self.max_raw_reputation {
            self.max_raw_reputation = raw_reputation;
        }
        reputation.reputation = self.compute_reputation(reputation);
        reputation.last_evaluation = block;
        proof {
            lemma_insert_bounded(self.reps(), account, reputation);
            lemma_insert_same_contribution(self.reps(), account, reputation);
        }
        self.reputations.insert(account, reputation);
        Ok(())
    }

    /// Whether processing the evaluation queue stays within `u64` weights and
    /// `u128` reputations.
    pub open spec fn processing_fits(&self, remaining: Weight, block: u64) -> bool {
        let w = self.conf().weights;
        let step = w.process_evaluation_queue_two.spec_saturating_sub(
            w.process_evaluation_queue_one,
        );
        let limit = remaining.spec_saturating_sub(step);
        let n = self.acct_queue().len();
        let k = rounds(w.do_process_evaluation_queue, limit, step, n);
        &&& rounds_fit(w.do_process_evaluation_queue, limit, step, n)
        &&& eval_all_fit(self.reps(), 0, popped(self.acct_queue(), k), block)
    }

    /// Whether `next` and `res` are this storage and the result after an
    /// evaluation round at `block` with `remaining` weight available.
    pub open spec fn evaluation_round(
        &self,
        next: &Pallet,
        remaining: Weight,
        block: u64,
        minimum_balance: u128,
        res: (Weight, Vec<(u64, u128)>),
    ) -> bool {
        let w = self.conf().weights;
        let step = w.process_evaluation_queue_two.spec_saturating_sub(
            w.process_evaluation_queue_one,
        );
        let limit = remaining.spec_saturating_sub(step);
        let q = self.acct_queue();
        let k = rounds(w.do_process_evaluation_queue, limit, step, q.len());
        let done = popped(q, k);
        let after = eval_all(self.reps(), 0, done, block);
        &&& next.wf()
        &&& k <= q.len()
        &&& res.0 == final_total(w.do_process_evaluation_queue, limit, step, q.len())
        &&& res.1@ == payouts(self.reps(), 0, done, block, minimum_balance)
        &&& next.eval_queue() == q.take(q.len() - k)
        &&& next.reps() == after.0
        &&& next.max_raw() == after.1
        &&& next.conf() == self.conf()
        &&& next.acct_queue() == q
        &&& next.event_log() == self.event_log()
        &&& self.contributions_kept(next)
    }

    /// Starts a new evaluation round at `block`: copies the account queue into
    /// the evaluation queue and resets the best raw reputation; then, while
    /// some component of the used weight is below `remaining` minus the
    /// per-account overhead, takes the last account of the evaluation queue,
    /// re-evaluates it and pays it its reputation times `minimum_balance`.
    /// Returns the weight used and the payouts, in order, for the balances
    /// ledger to deposit into the existing accounts.
    pub fn process_evaluation_queue(
        &mut self,
        remaining_weight: Weight,
        block: u64,
        minimum_balance: u128,
    ) -> (res: (Weight, Vec<(u64, u128)>))
        requires
            old(self).wf(),
            old(self).processing_fits(remaining_weight, block),
        ensures
            old(self).evaluation_round(&*final(self), remaining_weight, block, minimum_balance, res),
    {
        let ghost reps0 = self.reps();
        let ghost q = self.acct_queue();
        let ghost n = q.len();
        self.evaluation_queue = self.account_queue.clone();
        assert(self.evaluation_queue@ =~= q);
        self.max_raw_reputation = 0;
        let w = self.config.weights;
        let mut total_weight = w.do_process_evaluation_queue;
        let overhead = w.process_evaluation_queue_two.saturating_sub(w.process_evaluation_queue_one);
        let limit = remaining_weight.saturating_sub(overhead);
        let ghost k = rounds(total_weight, limit, overhead, n);
        let mut paid: Vec<(u64, u128)> = Vec::new();
        proof {
            lemma_rounds_le(total_weight, limit, overhead, n);
            assert(popped(q, 0) =~= Seq::<u64>::empty());
        }
        if self.evaluation_queue.len() == 0 {
            proof {
                assert(q.take(0) =~= q);
                assert(paid@ =~= Seq::<(u64, u128)>::empty());
                assert(eval_all(reps0, 0, popped(q, 0), block) == (reps0, 0u128));
            }
            return (total_weight, paid);
        }
        loop
            invariant
                self.wf(),
                self.conf() == old(self).conf(),
                self.acct_queue() == q,
                self.event_log() == old(self).event_log(),
                limit == remaining_weight.spec_saturating_sub(overhead),
                overhead == self.conf().weights.process_evaluation_queue_two.spec_saturating_sub(
                    self.conf().weights.process_evaluation_queue_one),
                k == rounds(self.conf().weights.do_process_evaluation_queue, limit, overhead, n),
                n == q.len(),
                k <= n,
                self.eval_queue().len() <= n,
                self.eval_queue() == q.take(self.eval_queue().len() as int),
                k - (n - self.eval_queue().len()) == rounds(
                    total_weight,
                    limit,
                    overhead,
                    self.eval_queue().len(),
                ),
                final_total(total_weight, limit, overhead, self.eval_queue().len())
                    == final_total(self.conf().weights.do_process_evaluation_queue, limit, overhead, n),
                rounds_fit(total_weight, limit, overhead, self.eval_queue().len()),
                eval_all_fit(reps0, 0, popped(q, k), block),
                ({
                    let done = popped(q, (n - self.eval_queue().len()) as nat);
                    let now = eval_all(reps0, 0, done, block);
                    &&& self.reps() == now.0
                    &&& self.max_raw() == now.1
                    &&& paid@ == payouts(reps0, 0, done, block, minimum_balance)
                }),
            ensures
                k == n - self.eval_queue().len(),
                total_weight == final_total(
                    self.conf().weights.do_process_evaluation_queue,
                    limit,
                    overhead,
                    n,
                ),
            decreases self.eval_queue().len(),
        {
            if !total_weight.any_lt(limit) {
                break;
            }
            let ghost len = self.evaluation_queue.len();
            let ghost i = n - len;
            match self.evaluation_queue.pop() {
                None => { break; },
                Some(account) => {
                    proof {
                        let before = popped(q, i as nat);
                        let after = popped(q, (i + 1) as nat);
                        assert(after.drop_last() =~= before);
                        assert(after.last() == account);
                        assert(popped(q, k).take(i + 1) =~= after);
                        lemma_eval_all_fit_prefix(reps0, 0, popped(q, k), block, i + 1);
                        lemma_eval_all_dom(reps0, 0, before, block);
                    }
                    let _ = self.do_evaluate_reputation(account, block);
                    let parts = match self.reputations.get(&account) {
                        Some(r) => r.reputation.parts,
                        None => 0,
                    };
                    let amount = Perbill { parts }.mul(minimum_balance);
                    paid.push((account, amount));
                    total_weight = total_weight.add(overhead);
                    proof {
                        let after = popped(q, (i + 1) as nat);
                        assert(self.eval_queue() =~= q.take(self.eval_queue().len() as int));
                        lemma_eval_all_dom(reps0, 0, after, block);
                    }
                },
            }
        }
        proof {
            lemma_eval_all_same_contributions(reps0, 0, popped(q, k), block);
        }
        (total_weight, paid)
    }

    /// The idle hook at `block`: every `reevaluation_period` blocks it runs an
    /// evaluation round; otherwise it does nothing and reports `remaining`
    /// plus the weight of doing nothing.
    pub fn on_idle(&mut self, block: u64, remaining_weight: Weight, minimum_balance: u128) -> (res:
        (Weight, Vec<(u64, u128)>))
        requires
            old(self).wf(),
            old(self).conf().reevaluation_period > 0,
            block % (old(self).conf().reevaluation_period as u64) == 0 ==> old(
                self,
            ).processing_fits(remaining_weight, block),
        ensures
            final(self).wf(),
            block % (old(self).conf().reevaluation_period as u64) == 0 ==> old(
                self,
            ).evaluation_round(&*final(self), remaining_weight, block, minimum_balance, res),
            block % (old(self).conf().reevaluation_period as u64) != 0 ==> {
                &&& res.0 == remaining_weight.spec_saturating_add(
                    old(self).conf().weights.on_idle_noop,
                )
                &&& res.1@ == Seq::<(u64, u128)>::empty()
                &&& *final(self) == *old(self)
            },
    {
        let period = self.config.reevaluation_period as u64;
        if block % period == 0 {
            return self.process_evaluation_queue(remaining_weight, block, minimum_balance);
        }
        (remaining_weight.saturating_add(self.config.weights.on_idle_noop), Vec::new())
    }
}

impl GenesisConfig {
    /// Writes the initial best raw reputation into `pallet`.
    pub fn build(&self, pallet: &mut Pallet)
        requires
            old(pallet).wf(),
        ensures
            final(pallet).wf(),
            final(pallet).max_raw() == self.initial_reputation,
            final(pallet).reps() == old(pallet).reps(),
            final(pallet).same_queues_and_events(old(pallet)),
    {
        pallet.max_raw_reputation = self.initial_reputation;
        assert(pallet.reps() == old(pallet).reps());
        assert(pallet.acct_queue() == old(pallet).acct_queue());
        assert(pallet.eval_queue() == old(pallet).eval_queue());
    }
}

/// Contributions to the vault feed the reputation pallet.
impl Reward for Pallet {
    open spec fn can_contribute(&self, account: u64) -> bool {
        &&& self.wf()
        &&& self.reps().contains_key(account) ==> self.reps()[account].contribution < u128::MAX
    }

    open spec fn records_contribution(&self, next: &Pallet, account: u64) -> bool {
        self.contribution_recorded(next, account)
    }

    fn add_contribution(&mut self, account: &u64) {
        Pallet::add_contribution(self, account);
    }
}

/// An evaluation round takes accounts off the back of the account queue while
/// the weight used so far is below `remaining` minus the per-account overhead
/// (`process_evaluation_queue(2) - process_evaluation_queue(1)`, saturating)
/// in at least one component: it evaluates the largest `k` accounts for which
/// that held before each of them, pays each of them in that order, leaves the
/// others queued, and reports the fixed cost plus `k` overheads.
pub proof fn lemma_round_takes_accounts_while_below_budget(
    p: &Pallet,
    next: &Pallet,
    remaining: Weight,
    block: u64,
    minimum_balance: u128,
    res: (Weight, Vec<(u64, u128)>),
)
    requires
        p.processing_fits(remaining, block),
        p.evaluation_round(next, remaining, block, minimum_balance, res),
    ensures
        ({
            let w = p.conf().weights;
            let base = w.do_process_evaluation_queue;
            let two = w.process_evaluation_queue_two;
            let one = w.process_evaluation_queue_one;
            let step = Weight {
                ref_time: if two.ref_time >= one.ref_time {
                    (two.ref_time - one.ref_time) as u64
                } else {
                    0
                },
                proof_size: if two.proof_size >= one.proof_size {
                    (two.proof_size - one.proof_size) as u64
                } else {
                    0
                },
            };
            let limit = Weight {
                ref_time: if remaining.ref_time >= step.ref_time {
                    (remaining.ref_time - step.ref_time) as u64
                } else {
                    0
                },
                proof_size: if remaining.proof_size >= step.proof_size {
                    (remaining.proof_size - step.proof_size) as u64
                } else {
                    0
                },
            };
            let q = p.acct_queue();
            let n = q.len() as int;
            let k = n - next.eval_queue().len();
            &&& 0 <= k <= n
            &&& next.eval_queue() == q.take(n - k)
            &&& forall|i: int| 0 <= i < k ==> #[trigger] below_limit(base, step, limit, i)
            &&& k < n ==> !below_limit(base, step, limit, k)
            &&& res.0.ref_time == base.ref_time + k * step.ref_time
            &&& res.0.proof_size == base.proof_size + k * step.proof_size
            &&& res.1@.len() == k
            &&& forall|i: int| 0 <= i < k ==> (#[trigger] res.1@[i]).0 == q[n - 1 - i]
            &&& forall|i: int| 0 <= i < k ==> res.1@[i].1 <= minimum_balance
        }),
{
    lemma_round_count_payees(p, next, remaining, block, minimum_balance, res);
}

/// What an evaluation round computes, for the `k` accounts it takes off the
/// back of the account queue (`k` as in
/// `lemma_round_takes_accounts_while_below_budget`): the best raw reputation
/// restarts from zero and ends as the best raw reputation among them; the
/// `i`-th of them is recomputed against the best raw reputation among the
/// first `i + 1`, stamped with `block`, and paid that reputation times
/// `minimum_balance`; every other account is unchanged.
pub proof fn lemma_round_recomputes_against_running_best(
    p: &Pallet,
    next: &Pallet,
    remaining: Weight,
    block: u64,
    minimum_balance: u128,
    res: (Weight, Vec<(u64, u128)>),
)
    requires
        p.wf(),
        raws_fit(p.reps()),
        p.evaluation_round(next, remaining, block, minimum_balance, res),
    ensures
        ({
            let q = p.acct_queue();
            let n = q.len() as int;
            let k = n - next.eval_queue().len();
            let taken = Seq::new(k as nat, |j: int| q[n - 1 - j]);
            &&& next.max_raw() as int == best_raw(p.reps(), taken)
            &&& forall|i: int|
                0 <= i < k ==> {
                    let a = #[trigger] taken[i];
                    let r = p.reps()[a];
                    let parts = reputation_parts(
                        r.score as int,
                        r.contribution as int,
                        best_raw(p.reps(), taken.take(i + 1)),
                    );
                    &&& next.reps()[a].score == r.score
                    &&& next.reps()[a].contribution == r.contribution
                    &&& next.reps()[a].last_evaluation == block
                    &&& next.reps()[a].reputation.parts as int == parts
                    &&& res.1@[i] == (a, scaled(minimum_balance as int, parts) as u128)
                }
            &&& forall|a: u64|
                p.reps().contains_key(a) && !taken.contains(a) ==> #[trigger] next.reps()[a]
                    == p.reps()[a]
        }),
{
    let q = p.acct_queue();
    let n = q.len() as int;
    let w = p.conf().weights;
    let step = w.process_evaluation_queue_two.spec_saturating_sub(w.process_evaluation_queue_one);
    let limit = remaining.spec_saturating_sub(step);
    let k = rounds(w.do_process_evaluation_queue, limit, step, q.len());
    let taken = popped(q, k);
    assert(taken =~= Seq::new(k as nat, |j: int| q[n - 1 - j]));
    assert(taken.no_duplicates()) by {
        assert forall|x: int, y: int| 0 <= x < taken.len() && 0 <= y < taken.len() && x != y implies taken[x]
            != taken[y] by {
            assert(q[n - 1 - x] != q[n - 1 - y]);
        }
    }
    lemma_eval_all_explicit(p.reps(), taken, block);
    assert forall|i: int| 0 <= i < k implies {
        let a = #[trigger] taken[i];
        let r = p.reps()[a];
        let parts = reputation_parts(
            r.score as int,
            r.contribution as int,
            best_raw(p.reps(), taken.take(i + 1)),
        );
        &&& next.reps()[a].score == r.score
        &&& next.reps()[a].contribution == r.contribution
        &&& next.reps()[a].last_evaluation == block
        &&& next.reps()[a].reputation.parts as int == parts
        &&& res.1@[i] == (a, scaled(minimum_balance as int, parts) as u128)
    } by {
        let a = taken[i];
        assert(p.reps().contains_key(a));
        let pre = taken.take(i + 1);
        assert(pre.no_duplicates());
        assert(pre[i] == a);
        lemma_eval_all_explicit(p.reps(), pre, block);
        assert(pre.take(i + 1) =~= pre);
        lemma_payouts_follow_evaluation(p.reps(), 0, taken, block, minimum_balance, i);
        let e = eval_all(p.reps(), 0, pre, block).0[a];
        let r = p.reps()[a];
        let parts = reputation_parts(
            r.score as int,
            r.contribution as int,
            best_raw(p.reps(), pre),
        );
        assert(e.reputation.parts as int == parts);
        assert(0 <= parts <= 1_000_000_000) by {
            lemma_eval_all_explicit(p.reps(), pre, block);
            let b = best_raw(p.reps(), pre);
            if r.score as int * r.contribution as int * 100 > b + 1 {
            } else {
                assert(0 <= r.score as int * r.contribution as int * 100) by (nonlinear_arith)
                    requires
                        r.score >= 0,
                        r.contribution >= 0,
                ;
                assert(1_000_000_000 * (r.score as int * r.contribution as int * 100) / (b + 1)
                    <= 1_000_000_000) by (nonlinear_arith)
                    requires
                        0 <= r.score as int * r.contribution as int * 100 <= b + 1,
                        b >= 0,
                ;
                assert(0 <= 1_000_000_000 * (r.score as int * r.contribution as int * 100) / (b
                    + 1)) by (nonlinear_arith)
                    requires
                        0 <= r.score as int * r.contribution as int * 100,
                        b >= 0,
                ;
            }
        }
        assert(crate::perbill::capped(e.reputation.parts) == e.reputation.parts);
        let x = minimum_balance as int;
        let prod = x * parts;
        assert(0 <= prod <= x * 1_000_000_000) by (nonlinear_arith)
            requires
                prod == x * parts,
                0 <= parts <= 1_000_000_000,
                0 <= x,
        ;
        assert(0 <= scaled(x, parts) <= x) by (nonlinear_arith)
            requires
                0 <= prod <= x * 1_000_000_000,
                0 <= x,
                scaled(x, parts) == prod / 1_000_000_000 + (if prod % 1_000_000_000
                    > 500_000_000 {
                    1int
                } else {
                    0int
                }),
        ;
    }
}

/// The number of accounts taken, their order and the weight reported by an
/// evaluation round.
proof fn lemma_round_count_payees(
    p: &Pallet,
    next: &Pallet,
    remaining: Weight,
    block: u64,
    minimum_balance: u128,
    res: (Weight, Vec<(u64, u128)>),
)
    requires
        p.processing_fits(remaining, block),
        p.evaluation_round(next, remaining, block, minimum_balance, res),
    ensures
        ({
            let w = p.conf().weights;
            let base = w.do_process_evaluation_queue;
            let step = w.process_evaluation_queue_two.spec_saturating_sub(
                w.process_evaluation_queue_one,
            );
            let limit = remaining.spec_saturating_sub(step);
            let q = p.acct_queue();
            let n = q.len() as int;
            let k = n - next.eval_queue().len();
            &&& 0 <= k <= n
            &&& next.eval_queue() == q.take(n - k)
            &&& forall|i: int| 0 <= i < k ==> #[trigger] below_limit(base, step, limit, i)
            &&& k < n ==> !below_limit(base, step, limit, k)
            &&& res.0.ref_time == base.ref_time + k * step.ref_time
            &&& res.0.proof_size == base.proof_size + k * step.proof_size
            &&& res.1@.len() == k
            &&& forall|i: int| 0 <= i < k ==> (#[trigger] res.1@[i]).0 == q[n - 1 - i]
            &&& forall|i: int| 0 <= i < k ==> res.1@[i].1 <= minimum_balance
        }),
{
    let w = p.conf().weights;
    let step = w.process_evaluation_queue_two.spec_saturating_sub(w.process_evaluation_queue_one);
    let limit = remaining.spec_saturating_sub(step);
    let q = p.acct_queue();
    lemma_rounds_explicit(w.do_process_evaluation_queue, limit, step, q.len());
    let k = rounds(w.do_process_evaluation_queue, limit, step, q.len());
    lemma_payouts_at_most_unit(p.reps(), 0, popped(q, k), block, minimum_balance);
}

} // verus!
