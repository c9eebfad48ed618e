//! The orchestrator's rules: each provider's answer is weighted by the
//! provider's priority, failed providers are left out, and everything is
//! ranked together and cut to the configured maximum.
use vstd::prelude::*;
use crate::ranking::{in_rank_order, lemma_ranked_len, lemma_ranked_order, rank, ranked};
use crate::types::{ProviderError, ScoredResult};

verus! {

/// The priority a provider has unless it says otherwise.
pub const DEFAULT_PRIORITY: u8 = 50;

/// What one provider answered for a query.
pub struct ProviderOutcome {
    pub provider_id: String,
    pub priority: u8,
    pub outcome: Result<Vec<ScoredResult>, ProviderError>,
}

/// The score adjustment for a provider's priority: ten points per step
/// above or below the neutral priority.
pub open spec fn priority_boost(priority: u8) -> int {
    (priority as int - DEFAULT_PRIORITY as int) * 10
}

/// `x` held to the range of `i32`.
pub open spec fn clamp_i32(x: int) -> i32 {
    if x > i32::MAX as int {
        i32::MAX
    } else if x < i32::MIN as int {
        i32::MIN
    } else {
        x as i32
    }
}

/// The results with the provider's adjustment added to each score.
pub open spec fn boosted(s: Seq<ScoredResult>, priority: u8) -> Seq<ScoredResult> {
    s.map_values(
        |r: ScoredResult| ScoredResult { score: clamp_i32(r.score + priority_boost(priority)), ..r },
    )
}

/// What a provider contributes: its adjusted results, or nothing if it failed.
pub open spec fn contribution(o: ProviderOutcome) -> Seq<ScoredResult> {
    match o.outcome {
        Ok(v) => boosted(v@, o.priority),
        Err(_) => Seq::empty(),
    }
}

/// The contributions of all providers, in the order they were registered.
pub open spec fn gathered(outcomes: Seq<ProviderOutcome>) -> Seq<ScoredResult>
    decreases outcomes.len(),
{
    if outcomes.len() == 0 {
        Seq::empty()
    } else {
        gathered(outcomes.drop_last()) + contribution(outcomes.last())
    }
}

/// At most `n` leading elements of `s`.
pub open spec fn take_at_most(s: Seq<ScoredResult>, n: nat) -> Seq<ScoredResult> {
    if s.len() <= n {
        s
    } else {
        s.subrange(0, n as int)
    }
}

/// The merged answer: all contributions ranked by score (ties keep the
/// registration order), cut to `max_results`.
pub open spec fn merged(outcomes: Seq<ProviderOutcome>, max_results: nat) -> Seq<ScoredResult> {
    take_at_most(ranked(gathered(outcomes), false), max_results)
}

/// Adds the priority adjustment of a provider to each of its results.
pub fn apply_priority(results: Vec<ScoredResult>, priority: u8) -> (r: Vec<ScoredResult>)
    ensures
        r@ == boosted(results@, priority),
{
    let mut results = results;
    let ghost input = results@;
    let n = results.len();
    let boost: i64 = (priority as i64 - DEFAULT_PRIORITY as i64) * 10;
    let mut out: Vec<ScoredResult> = Vec::new();
    let mut done: usize = 0;
    while results.len() > 0
        invariant
            n == input.len(),
            done + results@.len() == n,
            results@ == input.subrange(done as int, n as int),
            out@ == boosted(input.subrange(0, done as int), priority),
            boost == priority_boost(priority),
        decreases results@.len(),
    {
        let mut x = results.remove(0);
        let s: i64 = x.score as i64 + boost;
        x.score = if s > i32::MAX as i64 {
            i32::MAX
        } else if s < i32::MIN as i64 {
            i32::MIN
        } else {
            s as i32
        };
        out.push(x);
        proof {
            assert(results@ =~= input.subrange(done + 1, n as int));
            assert(out@ =~= boosted(input.subrange(0, done + 1), priority));
        }
        done = done + 1;
    }
    assert(input.subrange(0, n as int) =~= input);
    out
}

/// Merges the answers of the providers, in registration order: a failed
/// provider contributes nothing, every other one its results with its
/// priority adjustment; the whole is ranked by score and cut to
/// `max_results`.
pub fn merge_outcomes(outcomes: Vec<ProviderOutcome>, max_results: usize) -> (r: Vec<
    ScoredResult,
>)
    ensures
        r@ == merged(outcomes@, max_results as nat),
        r@.len() <= max_results,
{
    let mut outcomes = outcomes;
    let ghost input = outcomes@;
    let n = outcomes.len();
    let mut all: Vec<ScoredResult> = Vec::new();
    let mut done: usize = 0;
    assert(input.subrange(0, 0) =~= Seq::<ProviderOutcome>::empty());
    while outcomes.len() > 0
        invariant
            n == input.len(),
            done + outcomes@.len() == n,
            outcomes@ == input.subrange(done as int, n as int),
            all@ == gathered(input.subrange(0, done as int)),
        decreases outcomes@.len(),
    {
        let o = outcomes.remove(0);
        let ghost og = o;
        match o.outcome {
            Ok(results) => {
                let mut adjusted = apply_priority(results, o.priority);
                all.append(&mut adjusted);
            },
            Err(_) => {},
        }
        proof {
            let s = input.subrange(0, done + 1);
            assert(s.drop_last() =~= input.subrange(0, done as int));
            assert(s.last() == og);
            assert(all@ =~= gathered(s));
            assert(outcomes@ =~= input.subrange(done + 1, n as int));
        }
        done = done + 1;
    }
    assert(input.subrange(0, n as int) =~= input);
    let mut sorted = rank(all, false);
    proof {
        lemma_ranked_len(gathered(input), false);
    }
    sorted.truncate(max_results);
    sorted
}

/// The merged answer never holds more than `max_results` results.
pub proof fn lemma_merged_bounded(outcomes: Seq<ProviderOutcome>, max_results: nat)
    ensures
        merged(outcomes, max_results).len() <= max_results,
{
}

proof fn lemma_gathered_concat(a: Seq<ProviderOutcome>, b: Seq<ProviderOutcome>)
    ensures
        gathered(a + b) == gathered(a) + gathered(b),
    decreases b.len(),
{
    if b.len() == 0 {
        assert(a + b =~= a);
        assert(gathered(a) + gathered(b) =~= gathered(a));
    } else {
        lemma_gathered_concat(a, b.drop_last());
        assert((a + b).drop_last() =~= a + b.drop_last());
        assert(gathered(a) + gathered(b) =~= gathered(a) + gathered(b.drop_last()) + contribution(
            b.last(),
        ));
    }
}

/// A provider that failed changes nothing: the merged answer is the one the
/// other providers give without it.
pub proof fn lemma_failed_provider_ignored(
    before: Seq<ProviderOutcome>,
    failed: ProviderOutcome,
    after: Seq<ProviderOutcome>,
    max_results: nat,
)
    requires
        failed.outcome is Err,
    ensures
        merged(before.push(failed) + after, max_results) == merged(before + after, max_results),
{
    lemma_gathered_concat(before.push(failed), after);
    lemma_gathered_concat(before, after);
    assert(before.push(failed).drop_last() =~= before);
    assert(gathered(before.push(failed)) =~= gathered(before));
}

/// Of two providers, one failing and one answering with results that fit
/// the maximum: the merged answer is exactly the second one's results,
/// with its priority adjustment, ranked by score.
pub proof fn lemma_one_of_two_fails(
    failed: ProviderOutcome,
    answered: ProviderOutcome,
    max_results: nat,
)
    requires
        failed.outcome is Err,
        answered.outcome is Ok,
        answered.outcome->Ok_0@.len() <= max_results,
    ensures
        ({
            let adjusted = boosted(answered.outcome->Ok_0@, answered.priority);
            let m = merged(seq![failed, answered], max_results);
            &&& m == ranked(adjusted, false)
            &&& m.len() == answered.outcome->Ok_0@.len()
            &&& m.to_multiset() == adjusted.to_multiset()
            &&& in_rank_order(m, false)
        }),
{
    let adjusted = boosted(answered.outcome->Ok_0@, answered.priority);
    let two = seq![failed, answered];
    assert(two.drop_last() =~= seq![failed]);
    assert(seq![failed].drop_last() =~= Seq::<ProviderOutcome>::empty());
    assert(seq![failed].last() == failed);
    assert(contribution(failed) =~= Seq::<ScoredResult>::empty());
    assert(gathered(Seq::<ProviderOutcome>::empty()) =~= Seq::<ScoredResult>::empty());
    assert(gathered(seq![failed]) =~= Seq::<ScoredResult>::empty());
    assert(two.last() == answered);
    assert(gathered(two) =~= adjusted);
    lemma_ranked_len(adjusted, false);
    lemma_ranked_order(adjusted, false);
}

} // verus!
