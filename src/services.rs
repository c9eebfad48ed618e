//! The operations callers use on the usage store of the process. The store
//! is passed explicitly; the caller holds the one instance and serialises
//! writes to it.
use vstd::prelude::*;
use crate::usage::{boost_for, count_of, recorded, unique_keys, UsageEntry, UsageService, UsageTable};
use crate::usage_file::{by_count, load_usage_file, loaded, record_views, sorted_by_count};

verus! {

/// At most `n` leading entries of `s`.
pub open spec fn first_entries(s: UsageTable, n: nat) -> UsageTable {
    if s.len() <= n {
        s
    } else {
        s.subrange(0, n as int)
    }
}

pub open spec fn ids_of(s: UsageTable) -> Seq<Seq<char>> {
    s.map_values(|p: (Seq<char>, UsageEntry)| p.0)
}

pub open spec fn id_counts_of(s: UsageTable) -> Seq<(Seq<char>, u32)> {
    s.map_values(|p: (Seq<char>, UsageEntry)| (p.0, p.1.count))
}

pub open spec fn pair_views(v: Seq<(String, u32)>) -> Seq<(Seq<char>, u32)> {
    v.map_values(|p: (String, u32)| (p.0@, p.1))
}

pub open spec fn string_views(v: Seq<String>) -> Seq<Seq<char>> {
    v.map_values(|s: String| s@)
}

impl UsageService {
    /// The `limit` most used actions with their counts, most used first;
    /// equal counts keep the order in which the actions were first recorded.
    pub fn get_top_used_with_counts(&self, limit: usize) -> (r: Vec<(String, u32)>)
        ensures
            pair_views(r@) == id_counts_of(first_entries(by_count(self@), limit as nat)),
    {
        let sorted = sorted_by_count(self);
        let ghost sv = record_views(sorted@);
        let mut out: Vec<(String, u32)> = Vec::new();
        let mut i: usize = 0;
        let n = if sorted.len() < limit {
            sorted.len()
        } else {
            limit
        };
        while i < n
            invariant
                i <= n <= sorted@.len(),
                n == if sorted@.len() < limit { sorted@.len() } else { limit as nat },
                sv == record_views(sorted@),
                out@.len() == i,
                forall|j: int| 0 <= j < i ==> (#[trigger] out@[j]).0@ == sv[j].0 && out@[j].1 == sv[j].1.count,
            decreases n - i,
        {
            out.push((sorted[i].0.clone(), sorted[i].1.count));
            i = i + 1;
        }
        assert(pair_views(out@) =~= id_counts_of(first_entries(sv, limit as nat)));
        out
    }

    /// The ids of the `limit` most used actions, most used first.
    pub fn get_top_used(&self, limit: usize) -> (r: Vec<String>)
        ensures
            string_views(r@) == ids_of(first_entries(by_count(self@), limit as nat)),
    {
        let top = self.get_top_used_with_counts(limit);
        let ghost tv = pair_views(top@);
        let mut out: Vec<String> = Vec::new();
        let mut i: usize = 0;
        while i < top.len()
            invariant
                i <= top@.len(),
                tv == pair_views(top@),
                out@.len() == i,
                forall|j: int| 0 <= j < i ==> (#[trigger] out@[j])@ == tv[j].0,
            decreases top@.len() - i,
        {
            out.push(top[i].0.clone());
            i = i + 1;
        }
        proof {
            let f = first_entries(by_count(self@), limit as nat);
            assert(tv == id_counts_of(f));
            assert(tv.len() == f.len());
            assert forall|j: int| 0 <= j < out@.len() implies string_views(out@)[j] == ids_of(f)[j] by {
                assert(tv[j] == id_counts_of(f)[j]);
                assert(out@[j]@ == tv[j].0);
            }
            assert(string_views(out@) =~= ids_of(f));
        }
        out
    }
}

/// The store that a usage file's text describes (empty text: no history).
pub fn init_usage_service(file_text: &str) -> (r: UsageService)
    ensures
        r@ == loaded(crate::desktop::split_on(file_text@, '\n')),
        unique_keys(r@),
{
    load_usage_file(file_text)
}

/// Records one execution of `action_id` at `now` (seconds since the epoch).
pub fn record_usage(store: &mut UsageService, action_id: &str, now: i64)
    requires
        count_of(old(store)@, action_id@) < u32::MAX,
    ensures
        final(store)@ == recorded(old(store)@, action_id@, now),
        count_of(final(store)@, action_id@) == count_of(old(store)@, action_id@) + 1,
        unique_keys(final(store)@),
{
    store.record_usage(action_id, now);
}

/// The boost that the history of `action_id` gives it.
pub fn get_usage_boost(store: &UsageService, action_id: &str) -> (r: i32)
    ensures
        r == boost_for(count_of(store@, action_id@)),
{
    store.get_usage_boost(action_id)
}

/// How often `action_id` was executed.
pub fn get_usage_count(store: &UsageService, action_id: &str) -> (r: u32)
    ensures
        r == count_of(store@, action_id@),
{
    store.get_usage_count(action_id)
}

/// The ids of the `limit` most used actions, most used first.
pub fn get_top_used(store: &UsageService, limit: usize) -> (r: Vec<String>)
    ensures
        string_views(r@) == ids_of(first_entries(by_count(store@), limit as nat)),
{
    store.get_top_used(limit)
}

/// The `limit` most used actions with their counts, most used first.
pub fn get_top_used_with_counts(store: &UsageService, limit: usize) -> (r: Vec<(String, u32)>)
    ensures
        pair_views(r@) == id_counts_of(first_entries(by_count(store@), limit as nat)),
{
    store.get_top_used_with_counts(limit)
}

} // verus!
