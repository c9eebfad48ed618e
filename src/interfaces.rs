//! What the front ends decide without touching the screen: which interface
//! a name picks, and how results become rofi menu lines.
use vstd::prelude::*;
use crate::text::{chars_of, concat_str, lower_of, same_chars, to_lower};
use crate::providers::take_at_most;
use crate::ranking::{rank, ranked};
use crate::types::{ActionResult, ActionType, ScoredResult};
use crate::utils::{shorten_bytes, shortened_bytes};
use crate::usage::{boost_for, count_of, UsageService};

verus! {

/// The front ends.
#[derive(Debug, Clone, Copy, PartialEq, Eq, Structural)]
pub enum InterfaceType {
    Tui,
    Rofi,
}

/// Which part of the terminal screen has the keyboard.
#[derive(Debug, Clone, Copy, PartialEq, Eq, Structural)]
pub enum FocusState {
    Input,
    Results,
}

/// The interface a name picks, ignoring case: `tui` or `terminal`, or
/// `rofi`.
pub fn parse_interface(s: &str) -> (r: Result<InterfaceType, String>)
    ensures
        lower_of(s@) == "tui"@ || lower_of(s@) == "terminal"@ ==> r == Ok::<InterfaceType, String>(
            InterfaceType::Tui,
        ),
        lower_of(s@) == "rofi"@ ==> r == Ok::<InterfaceType, String>(InterfaceType::Rofi),
        lower_of(s@) != "tui"@ && lower_of(s@) != "terminal"@ && lower_of(s@) != "rofi"@ ==> (r matches Err(
            m,
        ) && m@ == "Unknown interface type: "@ + s@),
{
    proof {
        reveal_strlit("tui");
        reveal_strlit("terminal");
        reveal_strlit("rofi");
        assert("rofi"@.len() == 4 && "tui"@.len() == 3 && "terminal"@.len() == 8);
    }
    let l = chars_of(to_lower(s).as_str());
    if same_chars(&l, &chars_of("tui")) || same_chars(&l, &chars_of("terminal")) {
        Ok(InterfaceType::Tui)
    } else if same_chars(&l, &chars_of("rofi")) {
        Ok(InterfaceType::Rofi)
    } else {
        Err(concat_str("Unknown interface type: ", s))
    }
}

/// How the rofi menu looks.
#[derive(Debug, Clone)]
pub struct RofiConfig {
    pub prompt: String,
    pub placeholder: String,
    pub lines: u32,
    pub width: u32,
    pub case_sensitive: bool,
    pub show_icons: bool,
}

impl RofiConfig {
    /// The menu of a fresh installation.
    pub fn defaults() -> (r: Self)
        ensures
            r.prompt@ == "wayfindr"@,
            r.lines == 12,
            r.width == 60,
            !r.case_sensitive,
            r.show_icons,
    {
        RofiConfig {
            prompt: String::from_str("wayfindr"),
            placeholder: String::from_str("Search apps, directories, or ask AI..."),
            lines: 12,
            width: 60,
            case_sensitive: false,
            show_icons: true,
        }
    }
}

/// The short tag of a provider in a menu line.
pub open spec fn provider_tag(provider: Seq<char>) -> Seq<char> {
    if provider == "applications"@ {
        "APP"@
    } else if provider == "directories"@ {
        "DIR"@
    } else if provider == "ai_helper"@ {
        "AI"@
    } else if provider == "helper"@ {
        "CMD"@
    } else if provider == "weather"@ {
        "WTH"@
    } else if provider == "news"@ {
        "NEWS"@
    } else if provider == "sports"@ {
        "SPT"@
    } else if provider == "stocks"@ {
        "STK"@
    } else {
        "EXT"@
    }
}

/// The rofi front end.
pub struct RofiInterface {
    pub config: RofiConfig,
}

impl RofiInterface {
    pub fn new() -> (r: Self)
        ensures
            r.config.lines == 12,
            r.config.width == 60,
    {
        RofiInterface { config: RofiConfig::defaults() }
    }

    /// The short tag of a provider in a menu line.
    pub fn get_provider_tag(&self, provider: &str) -> (r: &'static str)
        ensures
            r@ == provider_tag(provider@),
    {
        let p = chars_of(provider);
        if same_chars(&p, &chars_of("applications")) {
            "APP"
        } else if same_chars(&p, &chars_of("directories")) {
            "DIR"
        } else if same_chars(&p, &chars_of("ai_helper")) {
            "AI"
        } else if same_chars(&p, &chars_of("helper")) {
            "CMD"
        } else if same_chars(&p, &chars_of("weather")) {
            "WTH"
        } else if same_chars(&p, &chars_of("news")) {
            "NEWS"
        } else if same_chars(&p, &chars_of("sports")) {
            "SPT"
        } else if same_chars(&p, &chars_of("stocks")) {
            "STK"
        } else {
            "EXT"
        }
    }

    /// Shortens a description for a menu line to `max_len` bytes of UTF-8
    /// (see `shortened_bytes`).
    pub fn truncate(&self, text: &str, max_len: usize) -> (r: String)
        ensures
            r@ == shortened_bytes(text@, max_len as nat),
    {
        shorten_bytes(&chars_of(text), max_len)
    }

    /// The icon of a menu line, by what the result does.
    pub fn get_result_icon(&self, result: &ActionResult) -> (r: &'static str)
        ensures
            r@ == match result.action {
                ActionType::Launch { needs_terminal: true } => "⚡"@,
                ActionType::Launch { needs_terminal: false } => "🚀"@,
                ActionType::Navigate { .. } => "📁"@,
                ActionType::AiResponse => "🤖"@,
                ActionType::Custom { .. } => if result.provider@ == "ai_helper"@ {
                    "🤖"@
                } else {
                    "⚙️"@
                },
            },
    {
        match &result.action {
            ActionType::Launch { needs_terminal } => if *needs_terminal {
                "⚡"
            } else {
                "🚀"
            },
            ActionType::Navigate { .. } => "📁",
            ActionType::AiResponse => "🤖",
            ActionType::Custom { .. } => {
                if same_chars(&chars_of(result.provider.as_str()), &chars_of("ai_helper")) {
                    "🤖"
                } else {
                    "⚙️"
                }
            },
        }
    }

    /// The menu line of a result: icon, title, the description where it
    /// says more than the title (shortened to 40 bytes), and the
    /// provider's tag.
    pub fn format_result(&self, result: &ActionResult) -> (r: String)
        ensures
            ({
                let icon = self.get_result_icon_spec(*result);
                let tag = provider_tag(result.provider@);
                if result.description@.len() == 0 || result.description@ == result.title@ {
                    r@ == icon + " "@ + result.title@ + " ["@ + tag + "]"@
                } else {
                    r@ == icon + " "@ + result.title@ + " - "@ + shortened_bytes(result.description@, 40)
                        + " ["@ + tag + "]"@
                }
            }),
    {
        let icon = self.get_result_icon(result);
        let tag = self.get_provider_tag(result.provider.as_str());
        let head = concat_str(concat_str(icon, " ").as_str(), result.title.as_str());
        let d = chars_of(result.description.as_str());
        let t = chars_of(result.title.as_str());
        let tail = concat_str(concat_str(" [", tag).as_str(), "]");
        if d.len() == 0 || same_chars(&d, &t) {
            concat_str(head.as_str(), tail.as_str())
        } else {
            let short = self.truncate(result.description.as_str(), 40);
            let mid = concat_str(concat_str(head.as_str(), " - ").as_str(), short.as_str());
            concat_str(mid.as_str(), tail.as_str())
        }
    }

    pub open spec fn get_result_icon_spec(&self, result: ActionResult) -> Seq<char> {
        match result.action {
            ActionType::Launch { needs_terminal: true } => "⚡"@,
            ActionType::Launch { needs_terminal: false } => "🚀"@,
            ActionType::Navigate { .. } => "📁"@,
            ActionType::AiResponse => "🤖"@,
            ActionType::Custom { .. } => if result.provider@ == "ai_helper"@ {
                "🤖"@
            } else {
                "⚙️"@
            },
        }
    }
}

/// The most lines the rofi menu gets.
pub const MENU_LIMIT: usize = 80;

/// The rank of a menu line by its provider: applications first, boosted by
/// their use, then directories, AI helpers, command helpers, the rest.
pub open spec fn menu_rank(provider: Seq<char>, boost: int) -> int {
    if provider == "applications"@ {
        1000 + boost
    } else if provider == "directories"@ {
        500
    } else if provider == "ai_helper"@ {
        300
    } else if provider == "helper"@ {
        200
    } else {
        100
    }
}

/// The first result for each id, in order.
pub open spec fn first_per_id(s: Seq<ActionResult>) -> Seq<ActionResult>
    decreases s.len(),
{
    if s.len() == 0 {
        s
    } else {
        let r = first_per_id(s.drop_last());
        if exists|i: int| 0 <= i < r.len() && r[i].id@ == s.last().id@ {
            r
        } else {
            r.push(s.last())
        }
    }
}

/// `c` ranks each of `d` by its menu rank.
pub open spec fn menu_candidates(c: Seq<ScoredResult>, d: Seq<ActionResult>, usage: crate::usage::UsageTable) -> bool {
    c.len() == d.len() && forall|i: int|
        0 <= i < c.len() ==> (#[trigger] c[i]).result == d[i] && c[i].score == menu_rank(
            d[i].provider@,
            boost_for(count_of(usage, d[i].id@)),
        )
}

pub open spec fn results_of(s: Seq<ScoredResult>) -> Seq<ActionResult> {
    s.map_values(|x: ScoredResult| x.result)
}

fn menu_rank_exec(r: &ActionResult, usage: &UsageService) -> (k: i32)
    ensures
        k == menu_rank(r.provider@, boost_for(count_of(usage@, r.id@))),
{
    let p = chars_of(r.provider.as_str());
    if same_chars(&p, &chars_of("applications")) {
        1000 + usage.get_usage_boost(r.id.as_str())
    } else if same_chars(&p, &chars_of("directories")) {
        500
    } else if same_chars(&p, &chars_of("ai_helper")) {
        300
    } else if same_chars(&p, &chars_of("helper")) {
        200
    } else {
        100
    }
}

impl RofiInterface {
    /// The menu's results: one per id (the first), ranked by provider and
    /// use (see `menu_rank`), ties by title, at most eighty.
    pub fn order_menu(&self, results: Vec<ActionResult>, usage: &UsageService) -> (r: Vec<ActionResult>)
        ensures
            exists|c: Seq<ScoredResult>|
                #[trigger] menu_candidates(c, first_per_id(results@), usage@) && r@ == results_of(
                    take_at_most(ranked(c, true), MENU_LIMIT as nat),
                ),
    {
        let mut results = results;
        let ghost input = results@;
        let n = results.len();
        let mut cands: Vec<ScoredResult> = Vec::new();
        let mut seen: Vec<String> = Vec::new();
        let mut done: usize = 0;
        assert(input.subrange(0, 0) =~= Seq::<ActionResult>::empty());
        while results.len() > 0
            invariant
                n == input.len(),
                done + results@.len() == n,
                results@ == input.subrange(done as int, n as int),
                seen@.len() == cands@.len(),
                menu_candidates(cands@, first_per_id(input.subrange(0, done as int)), usage@),
                forall|j: int| 0 <= j < seen@.len() ==> (#[trigger] seen@[j])@ == first_per_id(
                    input.subrange(0, done as int),
                )[j].id@,
            decreases results@.len(),
        {
            let x = results.remove(0);
            let ghost before = first_per_id(input.subrange(0, done as int));
            proof {
                let t = input.subrange(0, done + 1);
                assert(t.drop_last() =~= input.subrange(0, done as int));
                assert(t.last() == x);
                assert(results@ =~= input.subrange(done + 1, n as int));
            }
            let mut dup = false;
            let mut j: usize = 0;
            while j < seen.len()
                invariant
                    j <= seen@.len(),
                    seen@.len() == before.len(),
                    forall|m: int| 0 <= m < seen@.len() ==> (#[trigger] seen@[m])@ == before[m].id@,
                    dup ==> exists|m: int| 0 <= m < before.len() && before[m].id@ == x.id@,
                    !dup ==> forall|m: int| 0 <= m < j ==> before[m].id@ != x.id@,
                decreases seen@.len() - j,
            {
                if seen[j] == x.id {
                    dup = true;
                }
                j = j + 1;
            }
            if !dup {
                let score = menu_rank_exec(&x, usage);
                seen.push(x.id.clone());
                cands.push(ScoredResult { result: x, score, provider_id: String::new() });
            }
            done = done + 1;
        }
        assert(input.subrange(0, n as int) =~= input);
        let ghost c = cands@;
        let mut sorted = rank(cands, true);
        sorted.truncate(MENU_LIMIT);
        let ghost chosen = sorted@;
        let mut out: Vec<ActionResult> = Vec::new();
        let mut k: usize = 0;
        let m = sorted.len();
        while sorted.len() > 0
            invariant
                k + sorted@.len() == m,
                m == chosen.len(),
                sorted@ == chosen.subrange(k as int, m as int),
                out@ == results_of(chosen.subrange(0, k as int)),
            decreases sorted@.len(),
        {
            let x = sorted.remove(0);
            out.push(x.result);
            proof {
                assert(sorted@ =~= chosen.subrange(k + 1, m as int));
                assert(out@ =~= results_of(chosen.subrange(0, k + 1)));
            }
            k = k + 1;
        }
        assert(chosen.subrange(0, m as int) =~= chosen);
        out
    }
}

} // verus!
