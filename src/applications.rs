//! The application provider: finds installed applications by name,
//! comment and category, boosted by how often each was launched.
use vstd::prelude::*;
use crate::desktop::{cleaned_command, DesktopApp};
use crate::providers::take_at_most;
use crate::ranking::{rank, ranked};
use crate::text::{
    chars_of, concat_str, has_infix, has_infix_exec, has_prefix, has_prefix_exec, lower_of, same_chars,
    string_of, string_of_range, to_lower, trim, trim_chars,
};
use crate::types::{ActionData, ActionMetadata, ActionResult, ActionType, ScoredResult};
use crate::usage::{boost_for, count_of, UsageService, UsageTable};
use crate::utils::{
    calculate_relevance_score, content_hash_of, generate_id, hex_of, relevance_score,
};

verus! {

/// Results for an empty query: the most used applications only.
pub const TOP_APPS_LIMIT: usize = 5;

/// Results for a non-empty query.
pub const SEARCH_RESULTS_LIMIT: usize = 20;

/// The action id of the application called `name`.
pub open spec fn app_id(name: Seq<char>) -> Seq<char> {
    "app"@ + seq!['_'] + hex_of(content_hash_of(name) as nat)
}

/// Where an application called `name` stands in `apps`, or -1.
pub open spec fn name_index(apps: Seq<DesktopApp>, name: Seq<char>) -> int
    decreases apps.len(),
{
    if apps.len() == 0 {
        -1
    } else if apps.last().name@ == name {
        apps.len() - 1
    } else {
        name_index(apps.drop_last(), name)
    }
}

/// The applications found in a scan, one per name: a later entry with a
/// name already seen replaces the earlier one in its place.
pub open spec fn merged_apps(scanned: Seq<DesktopApp>) -> Seq<DesktopApp>
    decreases scanned.len(),
{
    if scanned.len() == 0 {
        scanned
    } else {
        let r = merged_apps(scanned.drop_last());
        let i = name_index(r, scanned.last().name@);
        if 0 <= i < r.len() {
            r.update(i, scanned.last())
        } else {
            r.push(scanned.last())
        }
    }
}

/// The query without the `app:` prefix (trimmed); `apps` asks for the
/// defaults, like the empty query.
pub open spec fn app_query(q: Seq<char>) -> Seq<char> {
    if has_prefix(q, "app:"@) {
        trim(q.subrange(4, q.len() as int))
    } else if q == "apps"@ {
        Seq::empty()
    } else {
        q
    }
}

pub open spec fn comment_text(app: DesktopApp) -> Seq<char> {
    match app.comment {
        Some(c) => c@,
        None => Seq::empty(),
    }
}

/// The score of an application for a processed query, 0 if it is left out.
/// The empty query keeps only used applications, scored by their boost;
/// any other query adds the boost to a positive relevance score.
pub open spec fn app_score(app: DesktopApp, q: Seq<char>, usage: UsageTable) -> int {
    let count = count_of(usage, app_id(app.name@));
    if q.len() == 0 {
        boost_for(count)
    } else {
        let base = relevance_score(q, app.name@, comment_text(app), app.categories@);
        if base > 0 {
            base + boost_for(count)
        } else {
            0
        }
    }
}

/// The applications that score above 0, in their order.
pub open spec fn hits(apps: Seq<DesktopApp>, q: Seq<char>, usage: UsageTable) -> Seq<DesktopApp>
    decreases apps.len(),
{
    if apps.len() == 0 {
        apps
    } else if app_score(apps.last(), q, usage) > 0 {
        hits(apps.drop_last(), q, usage).push(apps.last())
    } else {
        hits(apps.drop_last(), q, usage)
    }
}

/// `r` is the result for `app`.
pub open spec fn is_app_result(r: ScoredResult, app: DesktopApp, q: Seq<char>, usage: UsageTable) -> bool {
    &&& r.score == app_score(app, q, usage)
    &&& r.provider_id@ == "applications"@
    &&& r.result.provider@ == "applications"@
    &&& r.result.id@ == app_id(app.name@)
    &&& r.result.title@ == app.name@
    &&& r.result.description@ == match app.comment {
        Some(c) => c@,
        None => "Launch "@ + app.name@,
    }
    &&& r.result.action == (ActionType::Launch { needs_terminal: app.terminal })
    &&& r.result.data matches ActionData::Command(c) && c@ == cleaned_command(app.command@)
}

/// `c` holds one result per hit, in the hits' order.
pub open spec fn app_candidates(
    c: Seq<ScoredResult>,
    apps: Seq<DesktopApp>,
    q: Seq<char>,
    usage: UsageTable,
) -> bool {
    let h = hits(apps, q, usage);
    c.len() == h.len() && forall|i: int| 0 <= i < c.len() ==> is_app_result(c[i], h[i], q, usage)
}

/// How many results a processed query gets at most.
pub open spec fn app_limit(q: Seq<char>) -> nat {
    if q.len() == 0 {
        TOP_APPS_LIMIT as nat
    } else {
        SEARCH_RESULTS_LIMIT as nat
    }
}

/// A candidate whose name equals the query, ignoring case, has a higher
/// base score than any candidate whose name does not.
pub proof fn lemma_exact_name_wins(
    q: Seq<char>,
    name_a: Seq<char>,
    description_a: Seq<char>,
    categories_a: Seq<String>,
    name_b: Seq<char>,
    description_b: Seq<char>,
    categories_b: Seq<String>,
)
    requires
        lower_of(name_a) == lower_of(q),
        lower_of(name_b) != lower_of(q),
    ensures
        relevance_score(q, name_a, description_a, categories_a) > relevance_score(
            q,
            name_b,
            description_b,
            categories_b,
        ),
{
}

/// Finds installed applications.
pub struct ApplicationProvider {
    apps: Vec<DesktopApp>,
}

impl View for ApplicationProvider {
    type V = Seq<DesktopApp>;

    closed spec fn view(&self) -> Seq<DesktopApp> {
        self.apps@
    }
}

impl ApplicationProvider {
    /// A provider that knows no application yet.
    pub fn new() -> (r: Self)
        ensures
            r@.len() == 0,
    {
        ApplicationProvider { apps: Vec::new() }
    }

    pub fn id(&self) -> (r: &'static str)
        ensures
            r@ == "applications"@,
    {
        "applications"
    }

    pub fn name(&self) -> (r: &'static str)
        ensures
            r@ == "Applications"@,
    {
        "Applications"
    }

    /// Applications rank above the neutral priority.
    pub fn priority(&self) -> (r: u8)
        ensures
            r == 70,
    {
        70
    }

    /// The applications this provider searches.
    pub fn apps(&self) -> (r: &Vec<DesktopApp>)
        ensures
            r@ == self@,
    {
        &self.apps
    }

    /// Replaces the known applications by those of a scan, in scan order,
    /// one per name: a later entry replaces an earlier one of the same name.
    pub fn set_apps(&mut self, scanned: Vec<DesktopApp>)
        ensures
            final(self)@ == merged_apps(scanned@),
    {
        let mut scanned = scanned;
        let ghost input = scanned@;
        let n = scanned.len();
        let mut apps: Vec<DesktopApp> = Vec::new();
        let mut done: usize = 0;
        assert(input.subrange(0, 0) =~= Seq::<DesktopApp>::empty());
        while scanned.len() > 0
            invariant
                n == input.len(),
                done + scanned@.len() == n,
                scanned@ == input.subrange(done as int, n as int),
                apps@ == merged_apps(input.subrange(0, done as int)),
            decreases scanned@.len(),
        {
            let app = scanned.remove(0);
            let ghost before = apps@;
            proof {
                let s = input.subrange(0, done + 1);
                assert(s.drop_last() =~= input.subrange(0, done as int));
                assert(s.last() == app);
                assert(scanned@ =~= input.subrange(done + 1, n as int));
            }
            match find_name(&apps, &app.name) {
                Some(k) => {
                    apps.set(k, app);
                },
                None => {
                    apps.push(app);
                },
            }
            done = done + 1;
        }
        assert(input.subrange(0, n as int) =~= input);
        self.apps = apps;
    }

    /// Whether a query is one for applications: any query but those meant
    /// for the AI provider.
    pub fn can_handle(&self, query: &str) -> (r: bool)
        ensures
            r == (query@.len() == 0 || has_prefix(query@, "app:"@) || has_prefix(query@, "apps"@)
                || (!has_prefix(query@, "ai:"@) && !has_prefix(query@, "ask:"@))),
    {
        let q = chars_of(query);
        q.len() == 0 || has_prefix_exec(&q, &chars_of("app:")) || has_prefix_exec(
            &q,
            &chars_of("apps"),
        ) || (!has_prefix_exec(&q, &chars_of("ai:")) && !has_prefix_exec(&q, &chars_of("ask:")))
    }

    fn result_for(app: &DesktopApp, score: i32, q: Ghost<Seq<char>>, usage: Ghost<UsageTable>) -> (r: ScoredResult)
        requires
            score == app_score(*app, q@, usage@),
        ensures
            is_app_result(r, *app, q@, usage@),
    {
        let id = generate_id("app", app.name.as_str());
        proof {
            reveal_strlit("app");
            assert(id@ =~= app_id(app.name@));
        }
        let description = match &app.comment {
            Some(c) => c.clone(),
            None => concat_str("Launch ", app.name.as_str()),
        };
        let category = if app.categories.len() > 0 {
            Some(app.categories[0].clone())
        } else {
            None
        };
        let metadata = ActionMetadata {
            icon: app.icon.clone(),
            category,
            tags: app.categories.clone(),
            usage_count: 0,
            last_used: None,
        };
        let result = ActionResult {
            id,
            provider: String::from_str("applications"),
            action: ActionType::Launch { needs_terminal: app.terminal },
            title: app.name.clone(),
            description,
            data: ActionData::Command(app.clean_exec_command()),
            metadata,
        };
        ScoredResult { result, score, provider_id: String::from_str("applications") }
    }

    /// Searches the known applications. The query loses an `app:` prefix
    /// (and is trimmed); `apps` counts as empty. An empty query gives the
    /// used applications, scored by their usage boost, at most five; any
    /// other query gives the applications with a positive relevance score,
    /// plus their usage boost, at most twenty. Results come by score, ties
    /// by name.
    pub fn search(&self, query: &str, usage: &UsageService) -> (r: Vec<ScoredResult>)
        ensures
            exists|c: Seq<ScoredResult>|
                app_candidates(c, self@, app_query(query@), usage@) && r@ == take_at_most(
                    ranked(c, true),
                    app_limit(app_query(query@)),
                ),
    {
        let qc = chars_of(query);
        proof {
            reveal_strlit("app:");
            reveal_strlit("apps");
        }
        let processed: String = if has_prefix_exec(&qc, &chars_of("app:")) {
            let rest = chars_of(string_of_range(&qc, 4, qc.len()).as_str());
            string_of(&trim_chars(&rest))
        } else if same_chars(&qc, &chars_of("apps")) {
            String::new()
        } else {
            String::from_str(query)
        };
        let ghost q = app_query(query@);
        assert(processed@ == q);
        let empty = processed.as_str().unicode_len() == 0;
        let mut cands: Vec<ScoredResult> = Vec::new();
        let mut i: usize = 0;
        assert(self@.subrange(0, 0) =~= Seq::<DesktopApp>::empty());
        while i < self.apps.len()
            invariant
                i <= self@.len(),
                self@ == self.apps@,
                processed@ == q,
                empty == (q.len() == 0),
                app_candidates(cands@, self@.subrange(0, i as int), q, usage@),
            decreases self@.len() - i,
        {
            let app = &self.apps[i];
            let id = generate_id("app", app.name.as_str());
            proof {
                reveal_strlit("app");
                assert(id@ =~= app_id(app.name@));
            }
            let boost = usage.get_usage_boost(id.as_str());
            let score: i32 = if empty {
                boost
            } else {
                let comment: &str = match &app.comment {
                    Some(c) => c.as_str(),
                    None => "",
                };
                let base = calculate_relevance_score(
                    processed.as_str(),
                    app.name.as_str(),
                    comment,
                    app.categories.as_slice(),
                );
                if base > 0 {
                    base + boost
                } else {
                    0
                }
            };
            proof {
                let s = self@.subrange(0, i + 1);
                assert(s.drop_last() =~= self@.subrange(0, i as int));
                assert(s.last() == *app);
                reveal_strlit("");
                assert(comment_text(*app) == match &app.comment {
                    Some(c) => c@,
                    None => ""@,
                });
                assert(score == app_score(*app, q, usage@));
            }
            if score > 0 {
                let r = Self::result_for(app, score, Ghost(q), Ghost(usage@));
                cands.push(r);
            }
            i = i + 1;
        }
        assert(self@.subrange(0, self@.len() as int) =~= self@);
        let ghost c = cands@;
        let mut sorted = rank(cands, true);
        let limit = if empty {
            TOP_APPS_LIMIT
        } else {
            SEARCH_RESULTS_LIMIT
        };
        sorted.truncate(limit);
        assert(app_candidates(c, self@, q, usage@) && sorted@ == take_at_most(ranked(c, true), app_limit(q)));
        sorted
    }
}

/// Where an application called `name` stands in `apps`.
fn find_name(apps: &Vec<DesktopApp>, name: &String) -> (r: Option<usize>)
    ensures
        r matches Some(k) ==> k < apps@.len() && name_index(apps@, name@) == k,
        r is None ==> name_index(apps@, name@) == -1,
{
    let mut j: usize = apps.len();
    assert(apps@.subrange(0, apps@.len() as int) =~= apps@);
    while j > 0
        invariant
            j <= apps@.len(),
            name_index(apps@, name@) == name_index(apps@.subrange(0, j as int), name@),
        decreases j,
    {
        let ghost pre = apps@.subrange(0, j as int);
        assert(pre.drop_last() =~= apps@.subrange(0, j - 1));
        if apps[j - 1].name == *name {
            return Some(j - 1);
        }
        j = j - 1;
    }
    None
}


/// Names that mark an application as a common one.
pub open spec fn common_apps() -> Seq<Seq<char>> {
    seq![
        "firefox"@, "chromium"@, "google-chrome"@, "chrome"@, "code"@, "visual-studio-code"@,
        "vscode"@, "kitty"@, "alacritty"@, "gnome-terminal"@, "konsole"@, "xterm"@, "nautilus"@,
        "thunar"@, "dolphin"@, "pcmanfm"@, "spotify"@, "vlc"@, "gimp"@, "libreoffice"@,
        "discord"@, "slack"@, "telegram"@, "whatsapp"@, "gedit"@, "vim"@, "emacs"@,
        "sublime-text"@,
    ]
}

fn common_app_list() -> (r: Vec<Vec<char>>)
    ensures
        crate::desktop::views_of(r@) == common_apps(),
{
    let names: [&str; 28] = [
        "firefox", "chromium", "google-chrome", "chrome", "code", "visual-studio-code", "vscode",
        "kitty", "alacritty", "gnome-terminal", "konsole", "xterm", "nautilus", "thunar",
        "dolphin", "pcmanfm", "spotify", "vlc", "gimp", "libreoffice", "discord", "slack",
        "telegram", "whatsapp", "gedit", "vim", "emacs", "sublime-text",
    ];
    let mut r: Vec<Vec<char>> = Vec::new();
    let mut i: usize = 0;
    while i < 28
        invariant
            i <= 28,
            r@.len() == i,
            names@ == seq![
                "firefox", "chromium", "google-chrome", "chrome", "code", "visual-studio-code",
                "vscode", "kitty", "alacritty", "gnome-terminal", "konsole", "xterm", "nautilus",
                "thunar", "dolphin", "pcmanfm", "spotify", "vlc", "gimp", "libreoffice",
                "discord", "slack", "telegram", "whatsapp", "gedit", "vim", "emacs",
                "sublime-text",
            ],
            forall|j: int| 0 <= j < i ==> (#[trigger] r@[j])@ == names@[j]@,
        decreases 28 - i,
    {
        r.push(chars_of(names[i]));
        i = i + 1;
    }
    assert(crate::desktop::views_of(r@) =~= common_apps());
    r
}

/// Whether an application's name, lower-cased, holds a common name.
pub fn is_common_app(app_name: &str) -> (r: bool)
    ensures
        r == exists|i: int| 0 <= i < common_apps().len() && has_infix(lower_of(app_name@), #[trigger] common_apps()[i]),
{
    let list = common_app_list();
    let name = chars_of(to_lower(app_name).as_str());
    let mut i: usize = 0;
    while i < list.len()
        invariant
            i <= list@.len(),
            crate::desktop::views_of(list@) == common_apps(),
            name@ == lower_of(app_name@),
            forall|j: int| 0 <= j < i ==> !has_infix(name@, #[trigger] common_apps()[j]),
        decreases list@.len() - i,
    {
        if has_infix_exec(&name, &list[i]) {
            assert(common_apps()[i as int] == list@[i as int]@);
            return true;
        }
        assert(common_apps()[i as int] == list@[i as int]@);
        i = i + 1;
    }
    false
}

fn fallback_app(title: &str, command: &str, description: &str, terminal: bool, score: i32) -> (r: ScoredResult)
    ensures
        r.score == score,
        r.result.title@ == title@,
        r.result.id@ == "fallback"@ + seq!['_'] + hex_of(content_hash_of(command@) as nat),
        r.result.description@ == description@,
        r.result.action == (ActionType::Launch { needs_terminal: terminal }),
{
    let id = generate_id("fallback", command);
    proof {
        reveal_strlit("fallback");
    }
    let result = ActionResult::new_launch(
        id,
        String::from_str("applications"),
        String::from_str(title),
        String::from_str(command),
        terminal,
    ).with_description(String::from_str(description));
    ScoredResult::new(result, score, String::from_str("applications"))
}

/// Five well-known applications, for a caller that has nothing else to
/// show, scored from 100 down.
pub fn create_fallback_apps() -> (r: Vec<ScoredResult>)
    ensures
        r@.len() == 5,
        forall|i: int| 0 <= i < 5 ==> (#[trigger] r@[i]).score == 100 - i,
        r@[0].result.title@ == "Firefox"@,
        r@[1].result.title@ == "Terminal"@,
        r@[2].result.title@ == "Files"@,
        r@[3].result.title@ == "Text Editor"@,
        r@[4].result.title@ == "Calculator"@,
{
    let mut v: Vec<ScoredResult> = Vec::new();
    v.push(fallback_app("Firefox", "firefox", "Web Browser", false, 100));
    v.push(fallback_app("Terminal", "kitty", "Terminal Emulator", true, 99));
    v.push(fallback_app("Files", "nautilus", "File Manager", false, 98));
    v.push(fallback_app("Text Editor", "gedit", "Text Editor", false, 97));
    v.push(fallback_app("Calculator", "gnome-calculator", "Calculator", false, 96));
    v
}

} // verus!
