//! The directory provider: directories from the visit history of an outside
//! tool, and the query itself where it names a directory. The caller runs
//! the tool and looks at the file system; the rules are here.
use vstd::prelude::*;
use crate::providers::take_at_most;
use crate::ranking::{rank, ranked};
use crate::text::{chars_of, concat_str, has_prefix, has_prefix_exec, is_space, is_space_char};
use crate::types::{ActionData, ActionMetadata, ActionResult, ActionType, ScoredResult};
use crate::utils::{content_hash_of, generate_id, hex_of};

verus! {

/// The score of a directory from the history.
pub const HISTORY_SCORE: i32 = 100;

/// The score of the directory the query names.
pub const DIRECT_SCORE: i32 = 150;

/// At most this many directories come back.
pub const DIRECTORY_RESULTS_LIMIT: usize = 15;

/// The last word of a line (the part after its last white space), or the
/// empty sequence for a blank line.
pub open spec fn last_word(line: Seq<char>) -> Seq<char>
    decreases line.len(),
{
    if line.len() == 0 {
        line
    } else if is_space(line.last()) {
        last_word(line.drop_last())
    } else {
        word_end(line)
    }
}

/// The run of non-space characters at the end of `line`.
pub open spec fn word_end(line: Seq<char>) -> Seq<char>
    decreases line.len(),
{
    if line.len() == 0 || is_space(line.last()) {
        Seq::empty()
    } else {
        word_end(line.drop_last()).push(line.last())
    }
}

/// The paths in the history tool's output: the last word of each line,
/// blank lines left out.
pub open spec fn history_paths(lines: Seq<Seq<char>>) -> Seq<Seq<char>>
    decreases lines.len(),
{
    if lines.len() == 0 {
        Seq::empty()
    } else {
        let w = last_word(lines.last());
        if w.len() > 0 {
            history_paths(lines.drop_last()).push(w)
        } else {
            history_paths(lines.drop_last())
        }
    }
}

pub open spec fn string_views(v: Seq<String>) -> Seq<Seq<char>> {
    v.map_values(|s: String| s@)
}

fn word_end_exec(line: &Vec<char>, end: usize) -> (r: Vec<char>)
    requires
        end <= line@.len(),
    ensures
        r@ == word_end(line@.subrange(0, end as int)),
{
    let mut start = end;
    while start > 0 && !is_space_char(line[start - 1])
        invariant
            start <= end <= line@.len(),
            word_end(line@.subrange(0, end as int)) == word_end(line@.subrange(0, start as int))
                + line@.subrange(start as int, end as int),
        decreases start,
    {
        let ghost pre = line@.subrange(0, start as int);
        assert(pre.drop_last() =~= line@.subrange(0, start - 1));
        assert(line@.subrange(start - 1, end as int) =~= seq![line@[start - 1]] + line@.subrange(
            start as int,
            end as int,
        ));
        assert(word_end(line@.subrange(0, start as int)) =~= word_end(line@.subrange(0, start - 1)).push(line@[start - 1]));
        start = start - 1;
        assert(word_end(line@.subrange(0, end as int)) =~= word_end(line@.subrange(0, start as int))
            + line@.subrange(start as int, end as int));
    }
    let mut r: Vec<char> = Vec::new();
    let mut k = start;
    while k < end
        invariant
            start <= k <= end <= line@.len(),
            r@ == line@.subrange(start as int, k as int),
        decreases end - k,
    {
        r.push(line[k]);
        k = k + 1;
        assert(r@ =~= line@.subrange(start as int, k as int));
    }
    assert(word_end(line@.subrange(0, start as int)) =~= Seq::<char>::empty());
    assert(r@ =~= word_end(line@.subrange(0, end as int)));
    r
}

fn last_word_exec(line: &Vec<char>) -> (r: Vec<char>)
    ensures
        r@ == last_word(line@),
{
    let mut end = line.len();
    assert(line@.subrange(0, end as int) =~= line@);
    while end > 0 && is_space_char(line[end - 1])
        invariant
            end <= line@.len(),
            last_word(line@) == last_word(line@.subrange(0, end as int)),
        decreases end,
    {
        assert(line@.subrange(0, end as int).drop_last() =~= line@.subrange(0, end - 1));
        end = end - 1;
    }
    word_end_exec(line, end)
}

/// The paths in the output of the history tool (`zoxide query -s`), one
/// per line: the last word of each line that has one.
pub fn parse_history_output(output: &str) -> (r: Vec<String>)
    ensures
        string_views(r@) == history_paths(crate::desktop::split_on(output@, '\n')),
{
    let chars = chars_of(output);
    let lines = crate::desktop::split_chars(&chars, '\n');
    let ghost ls = crate::desktop::views_of(lines@);
    let mut out: Vec<String> = Vec::new();
    let mut i: usize = 0;
    assert(ls.subrange(0, 0) =~= Seq::<Seq<char>>::empty());
    while i < lines.len()
        invariant
            i <= lines@.len(),
            ls == crate::desktop::views_of(lines@),
            string_views(out@) == history_paths(ls.subrange(0, i as int)),
        decreases lines@.len() - i,
    {
        proof {
            let t = ls.subrange(0, i + 1);
            assert(t.drop_last() =~= ls.subrange(0, i as int));
        }
        let w = last_word_exec(&lines[i]);
        if w.len() > 0 {
            out.push(crate::text::string_of(&w));
        }
        assert(string_views(out@) =~= history_paths(ls.subrange(0, i + 1)));
        i = i + 1;
    }
    assert(ls.subrange(0, lines@.len() as int) =~= ls);
    out
}

/// The candidates in order: the directory the query names first, then
/// the history; each with its score.
pub open spec fn directory_entries(direct: Option<Seq<char>>, history: Seq<Seq<char>>) -> Seq<
    (Seq<char>, i32),
> {
    let h = history.map_values(|p: Seq<char>| (p, HISTORY_SCORE));
    match direct {
        Some(d) => seq![(d, DIRECT_SCORE)] + h,
        None => h,
    }
}

/// The first entry for each path, in order.
pub open spec fn first_per_path(s: Seq<(Seq<char>, i32)>) -> Seq<(Seq<char>, i32)>
    decreases s.len(),
{
    if s.len() == 0 {
        s
    } else {
        let r = first_per_path(s.drop_last());
        if exists|i: int| 0 <= i < r.len() && r[i].0 == s.last().0 {
            r
        } else {
            r.push(s.last())
        }
    }
}

/// `r` is the result for the directory `path` with `score`.
pub open spec fn is_directory_result(r: ScoredResult, path: Seq<char>, score: i32) -> bool {
    &&& r.score == score
    &&& r.provider_id@ == "directories"@
    &&& r.result.provider@ == "directories"@
    &&& r.result.id@ == "dir"@ + seq!['_'] + hex_of(content_hash_of(path) as nat)
    &&& r.result.title@ == path
    &&& r.result.description@ == "Navigate to "@ + path
    &&& r.result.action matches ActionType::Navigate { path: p } && p@ == path
    &&& r.result.data matches ActionData::Path(p) && p@ == path
}

/// `c` holds one result per entry, in the entries' order.
pub open spec fn directory_candidates(c: Seq<ScoredResult>, e: Seq<(Seq<char>, i32)>) -> bool {
    c.len() == e.len() && forall|i: int|
        0 <= i < c.len() ==> is_directory_result(#[trigger] c[i], e[i].0, e[i].1)
}

fn directory_result(path: &String, score: i32, source: &str) -> (r: ScoredResult)
    ensures
        is_directory_result(r, path@, score),
{
    let id = generate_id("dir", path.as_str());
    proof {
        reveal_strlit("dir");
    }
    let mut tags: Vec<String> = Vec::new();
    tags.push(String::from_str("directory"));
    tags.push(String::from_str(source));
    let result = ActionResult {
        id,
        provider: String::from_str("directories"),
        action: ActionType::Navigate { path: path.clone() },
        title: path.clone(),
        description: concat_str("Navigate to ", path.as_str()),
        data: ActionData::Path(path.clone()),
        metadata: ActionMetadata {
            icon: Some(String::from_str("folder")),
            category: Some(String::from_str("directory")),
            tags,
            usage_count: 0,
            last_used: None,
        },
    };
    ScoredResult { result, score, provider_id: String::from_str("directories") }
}

/// Finds directories for a query.
pub struct DirectoryProvider {}

impl DirectoryProvider {
    pub fn new() -> Self {
        DirectoryProvider {  }
    }

    pub fn id(&self) -> (r: &'static str)
        ensures
            r@ == "directories"@,
    {
        "directories"
    }

    pub fn name(&self) -> (r: &'static str)
        ensures
            r@ == "Directories"@,
    {
        "Directories"
    }

    /// Directories rank below the neutral priority.
    pub fn priority(&self) -> (r: u8)
        ensures
            r == 40,
    {
        40
    }

    /// Any non-empty query but those for applications or the AI provider.
    pub fn can_handle(&self, query: &str) -> (r: bool)
        ensures
            r == (query@.len() > 0 && !has_prefix(query@, "ai:"@) && !has_prefix(query@, "ask:"@)
                && !has_prefix(query@, "app:"@)),
    {
        let q = chars_of(query);
        q.len() > 0 && !has_prefix_exec(&q, &chars_of("ai:")) && !has_prefix_exec(
            &q,
            &chars_of("ask:"),
        ) && !has_prefix_exec(&q, &chars_of("app:"))
    }

    /// The results for a query: the directory it names (`direct`, already
    /// found to exist) scored 150, and the history's directories (already
    /// found to exist) scored 100; one result per path, the direct one
    /// winning; by score, at most fifteen.
    pub fn merge_results(&self, direct: Option<String>, history: Vec<String>) -> (r: Vec<
        ScoredResult,
    >)
        ensures
            exists|c: Seq<ScoredResult>|
                #[trigger] directory_candidates(
                    c,
                    first_per_path(
                        directory_entries(crate::desktop::opt_view(direct), string_views(history@)),
                    ),
                ) && r@ == take_at_most(ranked(c, false), DIRECTORY_RESULTS_LIMIT as nat),
    {
        let ghost entries = directory_entries(crate::desktop::opt_view(direct), string_views(history@));
        let has_direct = direct.is_some();
        let mut paths: Vec<String> = Vec::new();
        let mut scores: Vec<i32> = Vec::new();
        match direct {
            Some(d) => {
                paths.push(d);
                scores.push(DIRECT_SCORE);
            },
            None => {},
        }
        let mut i: usize = 0;
        while i < history.len()
            invariant
                i <= history@.len(),
                paths@.len() == scores@.len(),
                entries == directory_entries(crate::desktop::opt_view(direct), string_views(history@)),
                paths@.len() == i + if direct is Some { 1int } else { 0int },
                forall|j: int| 0 <= j < paths@.len() ==> entries[j] == (#[trigger] paths@[j]@, scores@[j]),
            decreases history@.len() - i,
        {
            paths.push(history[i].clone());
            scores.push(HISTORY_SCORE);
            i = i + 1;
        }
        assert(entries.len() == paths@.len());
        let mut cands: Vec<ScoredResult> = Vec::new();
        let mut seen: Vec<String> = Vec::new();
        let mut k: usize = 0;
        assert(entries.subrange(0, 0) =~= Seq::<(Seq<char>, i32)>::empty());
        while k < paths.len()
            invariant
                k <= paths@.len(),
                paths@.len() == scores@.len(),
                entries.len() == paths@.len(),
                forall|j: int| 0 <= j < paths@.len() ==> entries[j] == (#[trigger] paths@[j]@, scores@[j]),
                cands@.len() == seen@.len(),
                cands@.len() == first_per_path(entries.subrange(0, k as int)).len(),
                forall|j: int| 0 <= j < cands@.len() ==> {
                    let e = first_per_path(entries.subrange(0, k as int));
                    #[trigger] seen@[j]@ == e[j].0 && is_directory_result(cands@[j], e[j].0, e[j].1)
                },
            decreases paths@.len() - k,
        {
            let ghost before = first_per_path(entries.subrange(0, k as int));
            proof {
                let t = entries.subrange(0, k + 1);
                assert(t.drop_last() =~= entries.subrange(0, k as int));
                assert(t.last() == entries[k as int]);
            }
            let mut dup = false;
            let mut j: usize = 0;
            while j < seen.len()
                invariant
                    j <= seen@.len(),
                    k < paths@.len(),
                    seen@.len() == before.len(),
                    forall|x: int| 0 <= x < seen@.len() ==> #[trigger] seen@[x]@ == before[x].0,
                    dup ==> exists|x: int| 0 <= x < before.len() && before[x].0 == paths@[k as int]@,
                    !dup ==> forall|x: int| 0 <= x < j ==> before[x].0 != paths@[k as int]@,
                decreases seen@.len() - j,
            {
                if seen[j] == paths[k] {
                    dup = true;
                }
                j = j + 1;
            }
            proof {
                let t = entries.subrange(0, k + 1);
                assert(t.drop_last() =~= entries.subrange(0, k as int));
                assert(t.last() == entries[k as int]);
                if dup {
                    assert(first_per_path(t) == before);
                } else {
                    assert(!exists|x: int| 0 <= x < before.len() && before[x].0 == t.last().0);
                    assert(first_per_path(t) == before.push(entries[k as int]));
                }
            }
            if !dup {
                let tag = if k == 0 && has_direct {
                    "direct"
                } else {
                    "zoxide"
                };
                let r = directory_result(&paths[k], scores[k], tag);
                cands.push(r);
                seen.push(paths[k].clone());
            }
            k = k + 1;
        }
        assert(entries.subrange(0, paths@.len() as int) =~= entries);
        let ghost c = cands@;
        proof {
            let e = first_per_path(entries);
            assert forall|i: int| 0 <= i < c.len() implies is_directory_result(
                #[trigger] c[i],
                e[i].0,
                e[i].1,
            ) by {
                assert(seen@[i]@ == e[i].0);
            }
        }
        assert(directory_candidates(c, first_per_path(entries)));
        let mut sorted = rank(cands, false);
        sorted.truncate(DIRECTORY_RESULTS_LIMIT);
        sorted
    }
}

} // verus!
