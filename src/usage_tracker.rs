//! The older per-application usage counter, kept for the spawner-based
//! search: plain `name|count` lines and a smaller boost table.
use vstd::prelude::*;
use crate::services::{first_entries, id_counts_of, pair_views};
use crate::text::{chars_of, concat_str, decimal_string, dec_of, string_of_range, trim, trim_chars};
use crate::usage::{
    count_of, recorded, unique_keys, with_entry, without, UsageEntry, UsageService, UsageTable,
};
use crate::usage_file::{by_count, digit_value, digits_value, is_digit, position_of, record_views, sorted_by_count};

verus! {

/// Where the counts are kept unless a path is given.
pub const USAGE_FILE_PATH: &'static str = "/tmp/wayfindr_usage_stats.txt";

/// The boost for an application launched `count` times.
pub open spec fn app_boost_for(count: nat) -> int {
    if count == 0 {
        0
    } else if count <= 2 {
        10
    } else if count <= 5 {
        25
    } else if count <= 10 {
        50
    } else if count <= 20 {
        100
    } else if count <= 50 {
        250
    } else {
        500
    }
}

/// The number a text writes as `u32::from_str` reads it: an optional `+`,
/// then one or more digits, at most `u32::MAX`.
pub open spec fn u32_read(s: Seq<char>) -> Option<u32> {
    let digits = unsigned_part(s);
    if digits.len() == 0 || !all_digits(digits) || digits_value(digits) > u32::MAX {
        None
    } else {
        Some(digits_value(digits) as u32)
    }
}

/// `s` without a leading `+`.
pub open spec fn unsigned_part(s: Seq<char>) -> Seq<char> {
    if s.len() > 0 && s[0] == '+' {
        s.drop_first()
    } else {
        s
    }
}

/// Every character of `d` is a decimal digit.
pub open spec fn all_digits(d: Seq<char>) -> bool {
    forall|i: int| 0 <= i < d.len() ==> is_digit(d[i])
}

/// The application and count of one `name|count` line.
pub open spec fn count_line(raw: Seq<char>) -> Option<(Seq<char>, u32)> {
    let line = trim(raw);
    if line.len() == 0 || line[0] == '#' {
        None
    } else {
        let k = position_of(line, '|');
        if k < 0 {
            None
        } else {
            match u32_read(line.subrange(k + 1, line.len() as int)) {
                Some(n) => Some((line.subrange(0, k), n)),
                None => None,
            }
        }
    }
}

/// The counts after reading lines into `s`.
pub open spec fn counts_loaded(s: UsageTable, lines: Seq<Seq<char>>) -> UsageTable
    decreases lines.len(),
{
    if lines.len() == 0 {
        s
    } else {
        let before = counts_loaded(s, lines.drop_last());
        match count_line(lines.last()) {
            Some((name, n)) => with_entry(before, name, UsageEntry { count: n, last_used: 0, first_used: 0 }),
            None => before,
        }
    }
}

fn read_u32(v: &Vec<char>, from: usize) -> (r: Option<u32>)
    requires
        from <= v@.len(),
    ensures
        r == u32_read(v@.subrange(from as int, v@.len() as int)),
{
    let n = v.len();
    let ghost s = v@.subrange(from as int, n as int);
    let start = if from < n && v[from] == '+' {
        from + 1
    } else {
        from
    };
    let ghost digits = v@.subrange(start as int, n as int);
    proof {
        if s.len() > 0 && s[0] == '+' {
            assert(s.drop_first() =~= digits);
        } else {
            assert(s =~= digits);
        }
    }
    if start == n {
        return None;
    }
    let mut value: u64 = 0;
    let mut i = start;
    assert(digits.subrange(0, 0) =~= Seq::<char>::empty());
    while i < n
        invariant
            start <= i <= n == v@.len(),
            digits == v@.subrange(start as int, n as int),
            digits.len() > 0,
            s == v@.subrange(from as int, n as int),
            (s.len() > 0 && s[0] == '+') ==> s.drop_first() == digits,
            !(s.len() > 0 && s[0] == '+') ==> s == digits,
            forall|j: int| 0 <= j < i - start ==> is_digit(digits[j]),
            value == digits_value(digits.subrange(0, i - start)),
            value <= u32::MAX,
        decreases n - i,
    {
        if !('0' <= v[i] && v[i] <= '9') {
            assert(!is_digit(digits[i - start]));
            assert(unsigned_part(s) == digits);
            assert(!all_digits(digits));
            return None;
        }
        let d = (v[i] as u32 - '0' as u32) as u64;
        let ghost pre = digits.subrange(0, i + 1 - start);
        assert(pre.drop_last() =~= digits.subrange(0, i - start));
        assert(pre.last() == v@[i as int]);
        assert(digits_value(pre) == digits_value(pre.drop_last()) * 10 + digit_value(pre.last()));
        value = value * 10 + d;
        assert(value == digits_value(pre));
        i = i + 1;
        if value > u32::MAX as u64 {
            proof {
                lemma_digits_value_prefix(digits, i - start);
            }
            return None;
        }
    }
    assert(digits.subrange(0, n - start) =~= digits);
    Some(value as u32)
}

proof fn lemma_digits_value_prefix(s: Seq<char>, k: int)
    requires
        0 <= k <= s.len(),
    ensures
        digits_value(s.subrange(0, k)) <= digits_value(s),
    decreases s.len() - k,
{
    if k < s.len() {
        lemma_digits_value_prefix(s, k + 1);
        assert(s.subrange(0, k + 1).drop_last() =~= s.subrange(0, k));
    } else {
        assert(s.subrange(0, k) =~= s);
    }
}

/// Launch counts per application name.
pub struct UsageStats {
    counts: UsageService,
    file_path: String,
}

impl View for UsageStats {
    type V = UsageTable;

    closed spec fn view(&self) -> UsageTable {
        self.counts@
    }
}

impl UsageStats {
    /// No counts, kept at the default path.
    pub fn new() -> (r: Self)
        ensures
            r@.len() == 0,
            r.path()@ == USAGE_FILE_PATH@,
    {
        UsageStats { counts: UsageService::new(), file_path: String::from_str(USAGE_FILE_PATH) }
    }

    /// No counts, kept at `path`.
    pub fn with_custom_path(path: &str) -> (r: Self)
        ensures
            r@.len() == 0,
            r.path()@ == path@,
    {
        UsageStats { counts: UsageService::new(), file_path: String::from_str(path) }
    }

    pub closed spec fn path(&self) -> String {
        self.file_path
    }

    /// Where the counts are kept.
    pub fn file_path(&self) -> (r: &str)
        ensures
            r@ == self.path()@,
    {
        self.file_path.as_str()
    }

    /// Reads the lines of a counts file: each `name|count` line sets the
    /// count of that name; blank lines, comments and other lines are
    /// skipped.
    pub fn load_from_text(&mut self, text: &str)
        ensures
            final(self)@ == counts_loaded(old(self)@, crate::desktop::split_on(text@, '\n')),
            final(self).path() == old(self).path(),
            unique_keys(final(self)@),
    {
        let chars = chars_of(text);
        let lines = crate::desktop::split_chars(&chars, '\n');
        let ghost ls = crate::desktop::views_of(lines@);
        let ghost start = self@;
        // `len` states that the actions held so far are distinct.
        let _ = self.counts.len();
        let mut i: usize = 0;
        assert(ls.subrange(0, 0) =~= Seq::<Seq<char>>::empty());
        while i < lines.len()
            invariant
                i <= lines@.len(),
                ls == crate::desktop::views_of(lines@),
                self@ == counts_loaded(start, ls.subrange(0, i as int)),
                self.path() == old(self).path(),
                unique_keys(self@),
            decreases lines@.len() - i,
        {
            proof {
                let t = ls.subrange(0, i + 1);
                assert(t.drop_last() =~= ls.subrange(0, i as int));
            }
            let line = trim_chars(&lines[i]);
            if line.len() > 0 && line[0] != '#' {
                match crate::usage_file::position_exec(&line, 0, '|') {
                    Some(k) => {
                        assert(line@.subrange(0, line@.len() as int) =~= line@);
                        match read_u32(&line, k + 1) {
                            Some(n) => {
                                let name = string_of_range(&line, 0, k);
                                self.counts.set_entry(
                                    name.as_str(),
                                    UsageEntry { count: n, last_used: 0, first_used: 0 },
                                );
                            },
                            None => {},
                        }
                    },
                    None => {
                        assert(line@.subrange(0, line@.len() as int) =~= line@);
                    },
                }
            }
            i = i + 1;
        }
        assert(ls.subrange(0, lines@.len() as int) =~= ls);
    }

    /// The text of the counts file: two comment lines and a blank line,
    /// then `name|count` lines, most launched first.
    pub fn render(&self) -> (r: String)
        ensures
            r@ == "# Wayfindr Application Usage Statistics\n# Format: app_name|usage_count\n\n"@
                + count_lines(by_count(self@)),
    {
        let sorted = sorted_by_count(&self.counts);
        let ghost sv = record_views(sorted@);
        let mut text = String::from_str(
            "# Wayfindr Application Usage Statistics\n# Format: app_name|usage_count\n\n",
        );
        let ghost header = text@;
        let mut i: usize = 0;
        assert(sv.subrange(0, 0) =~= Seq::<(Seq<char>, UsageEntry)>::empty());
        assert(text@ =~= header + count_lines(sv.subrange(0, 0)));
        while i < sorted.len()
            invariant
                i <= sorted@.len(),
                sv == record_views(sorted@),
                text@ == header + count_lines(sv.subrange(0, i as int)),
            decreases sorted@.len() - i,
        {
            proof {
                let t = sv.subrange(0, i + 1);
                assert(t.drop_last() =~= sv.subrange(0, i as int));
                reveal_strlit("|");
                reveal_strlit("\n");
            }
            text.append(sorted[i].0.as_str());
            text.append("|");
            text.append(decimal_string(sorted[i].1.count as u64).as_str());
            text.append("\n");
            assert(text@ =~= header + count_lines(sv.subrange(0, i + 1)));
            i = i + 1;
        }
        assert(sv.subrange(0, sorted@.len() as int) =~= sv);
        text
    }

    /// One more launch of `app_name`.
    pub fn increment_usage(&mut self, app_name: &str)
        requires
            count_of(old(self)@, app_name@) < u32::MAX,
        ensures
            final(self)@ == recorded(old(self)@, app_name@, 0),
            count_of(final(self)@, app_name@) == count_of(old(self)@, app_name@) + 1,
            final(self).path() == old(self).path(),
            unique_keys(final(self)@),
    {
        self.counts.record_usage(app_name, 0);
    }

    /// How often `app_name` was launched.
    pub fn get_usage_count(&self, app_name: &str) -> (r: u32)
        ensures
            r == count_of(self@, app_name@),
    {
        self.counts.get_usage_count(app_name)
    }

    /// The boost for `app_name` by the table of this counter.
    pub fn get_usage_boost(&self, app_name: &str) -> (r: i32)
        ensures
            r == app_boost_for(count_of(self@, app_name@)),
    {
        let count = self.get_usage_count(app_name);
        if count == 0 {
            0
        } else if count <= 2 {
            10
        } else if count <= 5 {
            25
        } else if count <= 10 {
            50
        } else if count <= 20 {
            100
        } else if count <= 50 {
            250
        } else {
            500
        }
    }

    /// The `limit` most launched applications with their counts.
    pub fn get_top_apps(&self, limit: usize) -> (r: Vec<(String, u32)>)
        ensures
            pair_views(r@) == id_counts_of(first_entries(by_count(self@), limit as nat)),
    {
        self.counts.get_top_used_with_counts(limit)
    }

    /// Forgets the count of `app_name`.
    pub fn reset_usage(&mut self, app_name: &str)
        ensures
            final(self)@ == without(old(self)@, app_name@),
            final(self).path() == old(self).path(),
            unique_keys(final(self)@),
    {
        self.counts.reset_usage(app_name);
    }

    /// Forgets every count.
    pub fn clear_all_usage(&mut self)
        ensures
            final(self)@.len() == 0,
            final(self).path() == old(self).path(),
    {
        self.counts.clear_all();
    }

    /// The lines of the statistics report: a title, then the ten most
    /// launched applications with count and boost.
    pub fn print_stats(&self) -> (r: Vec<String>)
        ensures
            ({
                let top = first_entries(by_count(self@), 10);
                &&& r@.len() == top.len() + 1
                &&& r@[0]@ == "[USAGE_STATS] Current usage statistics:"@
                &&& forall|i: int|
                    0 <= i < top.len() ==> (#[trigger] r@[i + 1])@ == stats_line(
                        top[i].0,
                        top[i].1.count,
                        app_boost_for(count_of(self@, top[i].0)),
                    )
            }),
    {
        let top = self.get_top_apps(10);
        let ghost tv = pair_views(top@);
        let ghost f = first_entries(by_count(self@), 10);
        let mut lines: Vec<String> = Vec::new();
        lines.push(String::from_str("[USAGE_STATS] Current usage statistics:"));
        let mut i: usize = 0;
        assert(tv == id_counts_of(f));
        while i < top.len()
            invariant
                i <= top@.len(),
                tv == pair_views(top@),
                tv == id_counts_of(f),
                f == first_entries(by_count(self@), 10),
                lines@.len() == i + 1,
                lines@[0]@ == "[USAGE_STATS] Current usage statistics:"@,
                forall|j: int|
                    0 <= j < i ==> (#[trigger] lines@[j + 1])@ == stats_line(
                        f[j].0,
                        f[j].1.count,
                        app_boost_for(count_of(self@, f[j].0)),
                    ),
            decreases top@.len() - i,
        {
            assert(tv.len() == f.len());
            assert(tv[i as int] == id_counts_of(f)[i as int]);
            assert(top@[i as int].0@ == f[i as int].0);
            assert(top@[i as int].1 == f[i as int].1.count);
            let name = top[i].0.as_str();
            let boost = self.get_usage_boost(name);
            assert(boost >= 0);
            assert((boost as u64) as nat == boost as nat);
            let line = concat_str(
                concat_str(
                    concat_str(
                        concat_str(concat_str("[USAGE_STATS]   ", name).as_str(), " -> ").as_str(),
                        decimal_string(top[i].1 as u64).as_str(),
                    ).as_str(),
                    " uses (boost: ",
                ).as_str(),
                concat_str(decimal_string(boost as u64).as_str(), ")").as_str(),
            );
            assert(line@ =~= stats_line(f[i as int].0, f[i as int].1.count, app_boost_for(count_of(self@, f[i as int].0))));
            lines.push(line);
            i = i + 1;
        }
        assert(tv.len() == f.len());
        lines
    }
}

/// One line of the statistics report.
pub open spec fn stats_line(name: Seq<char>, count: u32, boost: int) -> Seq<char> {
    "[USAGE_STATS]   "@ + name + " -> "@ + dec_of(count as nat) + " uses (boost: "@ + dec_of(
        boost as nat,
    ) + ")"@
}

/// The `name|count` lines of a table, each ended by a line break.
pub open spec fn count_lines(s: UsageTable) -> Seq<char>
    decreases s.len(),
{
    if s.len() == 0 {
        Seq::empty()
    } else {
        count_lines(s.drop_last()) + s.last().0 + seq!['|'] + dec_of(s.last().1.count as nat) + seq![
            '\n',
        ]
    }
}

} // verus!
