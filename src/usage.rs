//! The usage store: how often, first and last, each action was executed,
//! and the score boost that this history gives an action.
use vstd::prelude::*;

verus! {

/// The history of one action; times are seconds since the Unix epoch.
#[derive(Debug, Clone, Copy, PartialEq, Eq, Structural)]
pub struct UsageEntry {
    pub count: u32,
    pub last_used: i64,
    pub first_used: i64,
}

/// The boost for an action executed `count` times: a step function that
/// rewards the first uses strongly and then flattens.
pub open spec fn boost_for(count: nat) -> int {
    if count == 0 {
        0
    } else if count <= 2 {
        50
    } else if count <= 5 {
        150
    } else if count <= 10 {
        300
    } else if count <= 20 {
        500
    } else if count <= 50 {
        750
    } else {
        1000
    }
}

/// The boost for a use count.
pub fn usage_boost(count: u32) -> (r: i32)
    ensures
        r == boost_for(count as nat),
{
    if count == 0 {
        0
    } else if count <= 2 {
        50
    } else if count <= 5 {
        150
    } else if count <= 10 {
        300
    } else if count <= 20 {
        500
    } else if count <= 50 {
        750
    } else {
        1000
    }
}

/// More uses never give a smaller boost.
pub proof fn lemma_boost_monotone(a: nat, b: nat)
    requires
        a <= b,
    ensures
        boost_for(a) <= boost_for(b),
{
}

impl UsageEntry {
    /// The history of an action executed once, at `now`.
    pub fn new(now: i64) -> (r: Self)
        ensures
            r == (UsageEntry { count: 1, last_used: now, first_used: now }),
    {
        UsageEntry { count: 1, last_used: now, first_used: now }
    }

    /// One more execution, at `now`.
    pub fn increment(&mut self, now: i64)
        requires
            old(self).count < u32::MAX,
        ensures
            *final(self) == (UsageEntry {
                count: (old(self).count + 1) as u32,
                last_used: now,
                first_used: old(self).first_used,
            }),
    {
        self.count = self.count + 1;
        self.last_used = now;
    }
}

/// The stored histories, in the order the actions were first recorded.
pub type UsageTable = Seq<(Seq<char>, UsageEntry)>;

/// Where the history of `id` stands in `s`, or -1.
pub open spec fn index_of(s: UsageTable, id: Seq<char>) -> int
    decreases s.len(),
{
    if s.len() == 0 {
        -1
    } else if s[0].0 == id {
        0
    } else {
        let r = index_of(s.drop_first(), id);
        if r < 0 {
            -1
        } else {
            r + 1
        }
    }
}

/// The history of `id`, if it was ever recorded.
pub open spec fn entry_of(s: UsageTable, id: Seq<char>) -> Option<UsageEntry> {
    let i = index_of(s, id);
    if 0 <= i < s.len() {
        Some(s[i].1)
    } else {
        None
    }
}

/// How often `id` was executed.
pub open spec fn count_of(s: UsageTable, id: Seq<char>) -> nat {
    match entry_of(s, id) {
        Some(e) => e.count as nat,
        None => 0,
    }
}

/// `s` after an execution of `id` at `now`: its count goes up by one and its
/// last use becomes `now`; a new action starts at one use.
pub open spec fn recorded(s: UsageTable, id: Seq<char>, now: i64) -> UsageTable {
    let i = index_of(s, id);
    if 0 <= i < s.len() {
        s.update(
            i,
            (id, UsageEntry { count: (s[i].1.count + 1) as u32, last_used: now, first_used: s[i].1.first_used }),
        )
    } else {
        s.push((id, UsageEntry { count: 1, last_used: now, first_used: now }))
    }
}

/// `s` with the history of `id` set to `e`.
pub open spec fn with_entry(s: UsageTable, id: Seq<char>, e: UsageEntry) -> UsageTable {
    let i = index_of(s, id);
    if 0 <= i < s.len() {
        s.update(i, (id, e))
    } else {
        s.push((id, e))
    }
}

/// `s` without the history of `id`.
pub open spec fn without(s: UsageTable, id: Seq<char>) -> UsageTable {
    let i = index_of(s, id);
    if 0 <= i < s.len() {
        s.remove(i)
    } else {
        s
    }
}

/// The first position of `id` is `i` (or -1 when `i` is the length).
pub proof fn lemma_index_of(s: UsageTable, id: Seq<char>, i: int)
    requires
        0 <= i <= s.len(),
        forall|j: int| 0 <= j < i ==> s[j].0 != id,
        i < s.len() ==> s[i].0 == id,
    ensures
        index_of(s, id) == if i < s.len() { i } else { -1 },
    decreases s.len(),
{
    if s.len() > 0 && i > 0 {
        assert forall|j: int| 0 <= j < i - 1 implies s.drop_first()[j].0 != id by {
            assert(s[j + 1].0 != id);
        }
        lemma_index_of(s.drop_first(), id, i - 1);
    }
}

/// `index_of` gives the first position that holds `id`.
pub proof fn lemma_index_of_first(s: UsageTable, id: Seq<char>)
    ensures
        -1 <= index_of(s, id) < s.len(),
        index_of(s, id) >= 0 ==> s[index_of(s, id)].0 == id,
        forall|j: int| 0 <= j < s.len() && (index_of(s, id) < 0 || j < index_of(s, id)) ==> s[j].0
            != id,
    decreases s.len(),
{
    if s.len() > 0 && s[0].0 != id {
        lemma_index_of_first(s.drop_first(), id);
        assert forall|j: int|
            0 <= j < s.len() && (index_of(s, id) < 0 || j < index_of(s, id)) implies s[j].0
            != id by {
            if j > 0 {
                assert(s[j] == s.drop_first()[j - 1]);
            }
        }
    }
}

/// Two tables with the same keys in the same places find every key alike.
proof fn lemma_index_same_keys(s: UsageTable, t: UsageTable, id: Seq<char>)
    requires
        s.len() == t.len(),
        forall|j: int| 0 <= j < s.len() ==> s[j].0 == t[j].0,
    ensures
        index_of(s, id) == index_of(t, id),
{
    lemma_index_of_first(s, id);
    let i = index_of(s, id);
    if i >= 0 {
        lemma_index_of(t, id, i);
    } else {
        lemma_index_of(t, id, t.len() as int);
    }
}

/// Setting the history of `id` changes that history and no other.
pub proof fn lemma_with_entry(s: UsageTable, id: Seq<char>, e: UsageEntry, other: Seq<char>)
    ensures
        entry_of(with_entry(s, id, e), id) == Some(e),
        other != id ==> entry_of(with_entry(s, id, e), other) == entry_of(s, other),
{
    lemma_index_of_first(s, id);
    lemma_index_of_first(s, other);
    let i = index_of(s, id);
    let t = with_entry(s, id, e);
    if 0 <= i {
        lemma_index_of(t, id, i);
        lemma_index_same_keys(s, t, other);
    } else {
        lemma_index_of(t, id, s.len() as int);
        let o = index_of(s, other);
        if o >= 0 {
            lemma_index_of(t, other, o);
        } else {
            if other != id {
                lemma_index_of(t, other, t.len() as int);
            }
        }
    }
}

/// Recording an execution raises the count of that action by exactly one,
/// and leaves every other action as it was.
pub proof fn lemma_record_counts(s: UsageTable, id: Seq<char>, now: i64, other: Seq<char>)
    requires
        count_of(s, id) < u32::MAX,
    ensures
        count_of(recorded(s, id, now), id) == count_of(s, id) + 1,
        other != id ==> entry_of(recorded(s, id, now), other) == entry_of(s, other),
{
    lemma_index_of_first(s, id);
    let i = index_of(s, id);
    let e = if 0 <= i {
        UsageEntry { count: (s[i].1.count + 1) as u32, last_used: now, first_used: s[i].1.first_used }
    } else {
        UsageEntry { count: 1, last_used: now, first_used: now }
    };
    assert(recorded(s, id, now) == with_entry(s, id, e));
    lemma_with_entry(s, id, e, other);
}

/// No two entries of `s` are for the same action.
pub open spec fn unique_keys(s: UsageTable) -> bool {
    forall|i: int, j: int| 0 <= i < j < s.len() ==> s[i].0 != s[j].0
}

/// Setting or removing an entry keeps the actions distinct.
pub proof fn lemma_unique_kept(s: UsageTable, id: Seq<char>, e: UsageEntry)
    requires
        unique_keys(s),
    ensures
        unique_keys(with_entry(s, id, e)),
        unique_keys(without(s, id)),
{
    lemma_index_of_first(s, id);
    let i = index_of(s, id);
    let t = with_entry(s, id, e);
    assert forall|a: int, b: int| 0 <= a < b < t.len() implies t[a].0 != t[b].0 by {
        if i < 0 && b == s.len() {
            assert(s[a].0 != id);
        }
    }
    if 0 <= i {
        let u = s.remove(i);
        assert forall|a: int, b: int| 0 <= a < b < u.len() implies u[a].0 != u[b].0 by {
            let a2 = if a < i { a } else { a + 1 };
            let b2 = if b < i { b } else { b + 1 };
            assert(u[a] == s[a2] && u[b] == s[b2]);
        }
    }
}

/// One stored history.
#[derive(Debug, Clone)]
pub struct UsageRecord {
    pub id: String,
    pub entry: UsageEntry,
}

/// The usage store of one process. Callers serialise writes (one writer);
/// reads may share it.
#[derive(Debug)]
pub struct UsageService {
    records: Vec<UsageRecord>,
}

impl View for UsageService {
    type V = UsageTable;

    closed spec fn view(&self) -> UsageTable {
        self.records@.map_values(|r: UsageRecord| (r.id@, r.entry))
    }
}

impl UsageService {
    /// Each action has at most one history.
    #[verifier::type_invariant]
    spec fn keys_unique(self) -> bool {
        unique_keys(self.records@.map_values(|r: UsageRecord| (r.id@, r.entry)))
    }

    /// A store with no history.
    pub fn new() -> (r: Self)
        ensures
            r@ == Seq::<(Seq<char>, UsageEntry)>::empty(),
            unique_keys(r@),
    {
        let records: Vec<UsageRecord> = Vec::new();
        assert(records@.map_values(|r: UsageRecord| (r.id@, r.entry)) =~= Seq::<
            (Seq<char>, UsageEntry),
        >::empty());
        let r = UsageService { records };
        assert(r@ =~= Seq::<(Seq<char>, UsageEntry)>::empty());
        r
    }

    /// The number of actions with a history; no action has two.
    pub fn len(&self) -> (r: usize)
        ensures
            r == self@.len(),
            unique_keys(self@),
    {
        proof {
            use_type_invariant(self);
        }
        self.records.len()
    }

    /// The id and history at position `i`.
    pub fn record_at(&self, i: usize) -> (r: (&String, UsageEntry))
        requires
            i < self@.len(),
        ensures
            r.0@ == self@[i as int].0,
            r.1 == self@[i as int].1,
    {
        (&self.records[i].id, self.records[i].entry)
    }

    /// Where `id` stands.
    fn find(&self, id: &String) -> (r: Option<usize>)
        ensures
            r matches Some(i) ==> index_of(self@, id@) == i as int && i < self@.len(),
            r is None ==> index_of(self@, id@) == -1,
    {
        let mut i: usize = 0;
        while i < self.records.len()
            invariant
                i <= self@.len(),
                self@.len() == self.records@.len(),
                forall|j: int| 0 <= j < i ==> self@[j].0 != id@,
            decreases self@.len() - i,
        {
            if self.records[i].id == *id {
                proof {
                    lemma_index_of(self@, id@, i as int);
                }
                return Some(i);
            }
            i = i + 1;
        }
        proof {
            lemma_index_of(self@, id@, i as int);
        }
        None
    }

    /// The history of `id`, if any.
    pub fn get_entry(&self, id: &str) -> (r: Option<UsageEntry>)
        ensures
            r == entry_of(self@, id@),
    {
        let key = String::from_str(id);
        match self.find(&key) {
            Some(i) => Some(self.records[i].entry),
            None => None,
        }
    }

    /// How often `id` was executed (0 if never).
    pub fn get_usage_count(&self, id: &str) -> (r: u32)
        ensures
            r == count_of(self@, id@),
    {
        match self.get_entry(id) {
            Some(e) => e.count,
            None => 0,
        }
    }

    /// The boost that the history of `id` gives it.
    pub fn get_usage_boost(&self, id: &str) -> (r: i32)
        ensures
            r == boost_for(count_of(self@, id@)),
    {
        usage_boost(self.get_usage_count(id))
    }

    /// Sets the history of `id` to `e`.
    pub fn set_entry(&mut self, id: &str, e: UsageEntry)
        ensures
            final(self)@ == with_entry(old(self)@, id@, e),
            unique_keys(final(self)@),
    {
        proof {
            use_type_invariant(&*self);
            lemma_unique_kept(self@, id@, e);
        }
        let key = String::from_str(id);
        let found = self.find(&key);
        let mut records: Vec<UsageRecord> = Vec::new();
        std::mem::swap(&mut records, &mut self.records);
        match found {
            Some(i) => {
                let rec = UsageRecord { id: key, entry: e };
                records.set(i, rec);
            },
            None => {
                records.push(UsageRecord { id: key, entry: e });
            },
        }
        assert(records@.map_values(|r: UsageRecord| (r.id@, r.entry)) =~= with_entry(
            old(self)@,
            id@,
            e,
        ));
        self.records = records;
    }

    /// Records one execution of `id` at `now`: the count goes up by one,
    /// the last use becomes `now`; an action seen for the first time starts
    /// at one use, first and last used `now`.
    pub fn record_usage(&mut self, id: &str, now: i64)
        requires
            count_of(old(self)@, id@) < u32::MAX,
        ensures
            final(self)@ == recorded(old(self)@, id@, now),
            count_of(final(self)@, id@) == count_of(old(self)@, id@) + 1,
            unique_keys(final(self)@),
    {
        let e = match self.get_entry(id) {
            Some(e) => {
                let mut e = e;
                e.increment(now);
                e
            },
            None => UsageEntry::new(now),
        };
        proof {
            lemma_index_of_first(self@, id@);
            lemma_record_counts(self@, id@, now, id@);
        }
        self.set_entry(id, e);
    }

    /// Forgets the history of `id`; says whether there was one.
    pub fn reset_usage(&mut self, id: &str) -> (r: bool)
        ensures
            r == (entry_of(old(self)@, id@) is Some),
            final(self)@ == without(old(self)@, id@),
            unique_keys(final(self)@),
    {
        let key = String::from_str(id);
        proof {
            use_type_invariant(&*self);
            lemma_index_of_first(self@, id@);
            lemma_unique_kept(self@, id@, UsageEntry { count: 0, last_used: 0, first_used: 0 });
        }
        match self.find(&key) {
            Some(i) => {
                let mut records: Vec<UsageRecord> = Vec::new();
                std::mem::swap(&mut records, &mut self.records);
                records.remove(i);
                assert(records@.map_values(|r: UsageRecord| (r.id@, r.entry)) =~= without(
                    old(self)@,
                    id@,
                ));
                self.records = records;
                true
            },
            None => false,
        }
    }

    /// Forgets every history.
    pub fn clear_all(&mut self)
        ensures
            final(self)@ == Seq::<(Seq<char>, UsageEntry)>::empty(),
            unique_keys(final(self)@),
    {
        self.records = Vec::new();
        assert(self@ =~= Seq::<(Seq<char>, UsageEntry)>::empty());
    }
}

} // verus!
