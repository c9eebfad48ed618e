//! Providers described by a declarative config: triggers decide which
//! queries they take, a command turns the query into an HTTP request, and a
//! template turns the JSON answer into one result. The caller performs the
//! request; this module makes every decision around it.
use vstd::prelude::*;
use crate::text::{
    chars_of, concat_str, has_infix, has_infix_exec, has_prefix, has_prefix_exec, lower_of,
    occurs_at_exec, same_chars, string_of, string_of_range, to_lower, trim, trim_chars,
};
use crate::types::{ActionData, ActionMetadata, ActionResult, ActionType, ProviderError, ScoredResult};
use crate::utils::{content_hash_of, generate_id, hex_of, truncate_text, truncated};

verus! {

/// What a provider is called and how it ranks.
#[derive(Debug, Clone)]
pub struct ProviderInfo {
    pub id: String,
    pub name: String,
    pub priority: u8,
    pub enabled: bool,
}

/// Which queries a provider takes: those that start with one of `prefixes`,
/// or whose lower-case form holds one of `patterns`.
#[derive(Debug, Clone)]
pub struct TriggerConfig {
    pub prefixes: Vec<String>,
    pub patterns: Vec<String>,
}

/// The service a provider calls.
#[derive(Debug, Clone)]
pub struct ApiConfig {
    pub api_type: String,
    pub base_url: String,
    pub api_key_env: Option<String>,
    pub headers: Option<Vec<(String, String)>>,
}

/// One request a provider can make; `body` is JSON text with placeholders.
#[derive(Debug, Clone)]
pub struct CommandConfig {
    pub id: String,
    pub name: String,
    pub endpoint: String,
    pub method: String,
    pub params: Option<Vec<(String, String)>>,
    pub body: Option<String>,
    pub response_template: String,
}

/// A regular expression that selects a command; `query_group` names the
/// capture group that becomes the query.
#[derive(Debug, Clone)]
pub struct MatcherConfig {
    pub pattern: String,
    pub command: String,
    pub query_group: Option<usize>,
    pub use_location: Option<bool>,
}

/// The whole description of one provider.
#[derive(Debug, Clone)]
pub struct DynamicProviderConfig {
    pub provider: ProviderInfo,
    pub triggers: TriggerConfig,
    pub api: ApiConfig,
    pub commands: Vec<CommandConfig>,
    pub matchers: Vec<MatcherConfig>,
}

/// What `regex` finds of capture group `group` when `pattern` is searched
/// in `text`: None when the pattern is invalid or does not match, Some(None)
/// when it matches without that group.
pub uninterp spec fn regex_capture_of(pattern: Seq<char>, text: Seq<char>, group: nat) -> Option<
    Option<Seq<char>>,
>;

pub open spec fn opt_opt_view(r: Option<Option<String>>) -> Option<Option<Seq<char>>> {
    match r {
        Some(Some(s)) => Some(Some(s@)),
        Some(None) => Some(None),
        None => None,
    }
}

/// Relies on `regex::Regex::new`, `Regex::captures` and `Captures::get`: an
/// invalid pattern gives None; otherwise the first match, if any, and the
/// text of the group in it.
#[verifier::external_body]
fn regex_capture(pattern: &str, text: &str, group: usize) -> (r: Option<Option<String>>)
    ensures
        opt_opt_view(r) == regex_capture_of(pattern@, text@, group as nat),
{
    match regex::Regex::new(pattern) {
        Ok(re) => match re.captures(text) {
            Some(caps) => match caps.get(group) {
                Some(m) => Some(Some(m.as_str().to_string())),
                None => Some(None),
            },
            None => None,
        },
        Err(_) => None,
    }
}

/// `pattern` is a valid regular expression that matches somewhere in `text`.
pub open spec fn regex_matches(pattern: Seq<char>, text: Seq<char>) -> bool {
    regex_capture_of(pattern, text, 0) is Some
}

/// Queries that belong to the built-in providers.
pub open spec fn reserved_query(q: Seq<char>) -> bool {
    q.len() == 0 || q == "apps"@ || has_prefix(q, "app:"@) || has_prefix(q, "ai:"@) || has_prefix(
        q,
        "ask:"@,
    )
}

/// Some element of `s` satisfies `f`, on the views.
pub open spec fn some_view(s: Seq<String>, f: spec_fn(Seq<char>) -> bool) -> bool {
    exists|i: int| 0 <= i < s.len() && #[trigger] f(s[i]@)
}

/// Whether the provider described by `c` takes query `q`: it is enabled,
/// the query is not one of the built-in providers', and a prefix, a
/// pattern (in the lower-cased query) or a matcher's regex fits it.
pub open spec fn takes_query(c: DynamicProviderConfig, q: Seq<char>) -> bool {
    &&& c.provider.enabled
    &&& !reserved_query(q)
    &&& {
        ||| some_view(c.triggers.prefixes@, |p: Seq<char>| has_prefix(q, p))
        ||| some_view(c.triggers.patterns@, |p: Seq<char>| has_infix(lower_of(q), p))
        ||| exists|i: int|
            0 <= i < c.matchers@.len() && regex_matches(#[trigger] c.matchers@[i].pattern@, q)
    }
}

/// The provider's state: its config and whether a request was refused for
/// bad credentials since the last reconfiguration.
pub struct DynamicState {
    pub config: DynamicProviderConfig,
    pub auth_failed: bool,
}

/// The state after a reconfiguration: the same config, no sticky failure.
pub open spec fn reconfigured(s: DynamicState) -> DynamicState {
    DynamicState { config: s.config, auth_failed: false }
}

/// Reconfiguring twice is reconfiguring once; it clears the sticky
/// failure and keeps which queries are taken and the priority.
pub proof fn lemma_reconfigure_idempotent(s: DynamicState, q: Seq<char>)
    ensures
        reconfigured(reconfigured(s)) == reconfigured(s),
        !reconfigured(s).auth_failed,
        takes_query(reconfigured(reconfigured(s)).config, q) == takes_query(s.config, q),
        reconfigured(reconfigured(s)).config.provider.priority == s.config.provider.priority,
{
}

/// A provider defined by a config.
pub struct DynamicProvider {
    config: DynamicProviderConfig,
    auth_failed: bool,
}

impl View for DynamicProvider {
    type V = DynamicState;

    closed spec fn view(&self) -> DynamicState {
        DynamicState { config: self.config, auth_failed: self.auth_failed }
    }
}

fn any_prefix(prefixes: &Vec<String>, q: &Vec<char>) -> (r: bool)
    ensures
        r == some_view(prefixes@, |p: Seq<char>| has_prefix(q@, p)),
{
    let ghost f = |p: Seq<char>| has_prefix(q@, p);
    let mut i: usize = 0;
    while i < prefixes.len()
        invariant
            i <= prefixes@.len(),
            f == (|p: Seq<char>| has_prefix(q@, p)),
            forall|j: int| 0 <= j < i ==> !f(#[trigger] prefixes@[j]@),
        decreases prefixes@.len() - i,
    {
        if has_prefix_exec(q, &chars_of(prefixes[i].as_str())) {
            assert(f(prefixes@[i as int]@));
            return true;
        }
        i = i + 1;
    }
    false
}

fn any_pattern(patterns: &Vec<String>, lq: &Vec<char>) -> (r: bool)
    ensures
        r == some_view(patterns@, |p: Seq<char>| has_infix(lq@, p)),
{
    let ghost f = |p: Seq<char>| has_infix(lq@, p);
    let mut i: usize = 0;
    while i < patterns.len()
        invariant
            i <= patterns@.len(),
            f == (|p: Seq<char>| has_infix(lq@, p)),
            forall|j: int| 0 <= j < i ==> !f(#[trigger] patterns@[j]@),
        decreases patterns@.len() - i,
    {
        if has_infix_exec(lq, &chars_of(patterns[i].as_str())) {
            assert(f(patterns@[i as int]@));
            return true;
        }
        i = i + 1;
    }
    false
}

fn any_matcher(matchers: &Vec<MatcherConfig>, query: &str) -> (r: bool)
    ensures
        r == exists|i: int|
            0 <= i < matchers@.len() && regex_matches(#[trigger] matchers@[i].pattern@, query@),
{
    let mut i: usize = 0;
    while i < matchers.len()
        invariant
            i <= matchers@.len(),
            forall|j: int| 0 <= j < i ==> !regex_matches(#[trigger] matchers@[j].pattern@, query@),
        decreases matchers@.len() - i,
    {
        if regex_capture(matchers[i].pattern.as_str(), query, 0).is_some() {
            return true;
        }
        i = i + 1;
    }
    false
}

impl DynamicProvider {
    /// A provider for `config`, with no sticky failure.
    pub fn from_config(config: DynamicProviderConfig) -> (r: Result<DynamicProvider, crate::types::ProviderError>)
        ensures
            r matches Ok(p) && p@ == (DynamicState { config, auth_failed: false }),
    {
        Ok(DynamicProvider { config, auth_failed: false })
    }

    pub fn config(&self) -> (r: &DynamicProviderConfig)
        ensures
            *r == self@.config,
    {
        &self.config
    }

    pub fn id(&self) -> (r: &str)
        ensures
            r@ == self@.config.provider.id@,
    {
        self.config.provider.id.as_str()
    }

    pub fn name(&self) -> (r: &str)
        ensures
            r@ == self@.config.provider.name@,
    {
        self.config.provider.name.as_str()
    }

    pub fn priority(&self) -> (r: u8)
        ensures
            r == self@.config.provider.priority,
    {
        self.config.provider.priority
    }

    /// Whether a request was refused for bad credentials since the last
    /// reconfiguration.
    pub fn auth_failed(&self) -> (r: bool)
        ensures
            r == self@.auth_failed,
    {
        self.auth_failed
    }

    /// Clears the sticky failure; the config stays.
    pub fn configure(&mut self)
        ensures
            final(self)@ == reconfigured(old(self)@),
    {
        self.auth_failed = false;
    }

    /// Whether this provider takes `query` (see `takes_query`).
    pub fn can_handle(&self, query: &str) -> (r: bool)
        ensures
            r == takes_query(self@.config, query@),
    {
        proof {
            reveal_strlit("apps");
            reveal_strlit("app:");
            reveal_strlit("ai:");
            reveal_strlit("ask:");
        }
        if !self.config.provider.enabled {
            return false;
        }
        let q = chars_of(query);
        if q.len() == 0 || same_chars(&q, &chars_of("apps")) || has_prefix_exec(&q, &chars_of("app:"))
            || has_prefix_exec(&q, &chars_of("ai:")) || has_prefix_exec(&q, &chars_of("ask:")) {
            return false;
        }
        if any_prefix(&self.config.triggers.prefixes, &q) {
            return true;
        }
        let lq = chars_of(to_lower(query).as_str());
        if any_pattern(&self.config.triggers.patterns, &lq) {
            return true;
        }
        any_matcher(&self.config.matchers, query)
    }
}

#[verifier::external_type_specification]
#[verifier::external_body]
pub struct ExJsonValue(serde_json::Value);

/// Whether `serde_json` reads `text` as a JSON value.
pub uninterp spec fn json_valid_of(text: Seq<char>) -> bool;

/// Relies on `serde_json::from_str`: reads a JSON value, or says why not.
#[verifier::external_body]
fn parse_json(text: &str) -> (r: Result<serde_json::Value, String>)
    ensures
        r is Ok == json_valid_of(text@),
{
    match serde_json::from_str::<serde_json::Value>(text) {
        Ok(v) => Ok(v),
        Err(e) => Err(e.to_string()),
    }
}

/// What `handlebars` renders from a template over the JSON value that a
/// text holds; None where the template does not render.
pub uninterp spec fn rendered_json_of(template: Seq<char>, json_text: Seq<char>) -> Option<
    Seq<char>,
>;

/// Relies on `serde_json::from_str` (reads the JSON text) and
/// `handlebars::Handlebars` (`new`, `set_strict_mode(false)`,
/// `render_template`): renders a template over the value; missing fields
/// render empty. The result depends on the two texts alone.
#[verifier::external_body]
fn render_json(template: &str, json_text: &str) -> (r: Result<String, String>)
    ensures
        r is Ok == (json_valid_of(json_text@) && rendered_json_of(template@, json_text@) is Some),
        r matches Ok(t) ==> Some(t@) == rendered_json_of(template@, json_text@),
{
    let data: serde_json::Value = match serde_json::from_str(json_text) {
        Ok(v) => v,
        Err(e) => return Err(e.to_string()),
    };
    let mut handlebars = handlebars::Handlebars::new();
    handlebars.set_strict_mode(false);
    match handlebars.render_template(template, &data) {
        Ok(s) => Ok(s),
        Err(e) => Err(e.to_string()),
    }
}

/// What the caller read from the environment and the clock for one search.
pub struct SearchEnv {
    pub api_key: Option<String>,
    pub location: String,
    pub date: String,
    pub datetime: String,
}

/// The values a template may use.
pub struct TemplateVars {
    pub query: Seq<char>,
    pub location: Seq<char>,
    pub date: Seq<char>,
    pub datetime: Seq<char>,
    pub api_key: Option<Seq<char>>,
}

pub open spec fn vars_of(env: SearchEnv, query: Seq<char>) -> TemplateVars {
    TemplateVars {
        query,
        location: env.location@,
        date: env.date@,
        datetime: env.datetime@,
        api_key: match env.api_key {
            Some(k) => Some(k@),
            None => None,
        },
    }
}

/// `s` with every occurrence of `p` replaced by `v`, scanning from the left
/// as `str::replace` does.
pub open spec fn replace_all(s: Seq<char>, p: Seq<char>, v: Seq<char>) -> Seq<char>
    decreases s.len(),
{
    if p.len() == 0 || s.len() == 0 {
        s
    } else if has_prefix(s, p) {
        v + replace_all(s.subrange(p.len() as int, s.len() as int), p, v)
    } else {
        seq![s[0]] + replace_all(s.drop_first(), p, v)
    }
}

/// A template with its placeholders filled: `{{query}}`, then (for an empty
/// query) `{{query|location}}` by the location, then `{{location}}`,
/// `{{date}}`, `{{datetime}}` and, where there is a key, `{{api_key}}`.
pub open spec fn rendered(t: Seq<char>, vars: TemplateVars) -> Seq<char> {
    let a = replace_all(t, "{{query}}"@, vars.query);
    let b = if vars.query.len() == 0 {
        replace_all(a, "{{query|location}}"@, vars.location)
    } else {
        a
    };
    let c = replace_all(b, "{{location}}"@, vars.location);
    let d = replace_all(c, "{{date}}"@, vars.date);
    let e = replace_all(d, "{{datetime}}"@, vars.datetime);
    match vars.api_key {
        Some(k) => replace_all(e, "{{api_key}}"@, k),
        None => e,
    }
}

pub fn replace_all_exec(s: &Vec<char>, p: &Vec<char>, v: &Vec<char>) -> (r: Vec<char>)
    ensures
        r@ == replace_all(s@, p@, v@),
{
    let n = s.len();
    if p.len() == 0 {
        let r = s.clone();
        assert(r@ =~= s@);
        return r;
    }
    let mut out: Vec<char> = Vec::new();
    let mut i: usize = 0;
    assert(s@.subrange(0, n as int) =~= s@);
    while i < n
        invariant
            n == s@.len(),
            i <= n,
            p@.len() > 0,
            replace_all(s@, p@, v@) == out@ + replace_all(s@.subrange(i as int, n as int), p@, v@),
        decreases n - i,
    {
        let ghost rest = s@.subrange(i as int, n as int);
        if occurs_at_exec(s, p, i) {
            assert(rest.subrange(0, p@.len() as int) =~= s@.subrange(i as int, i + p@.len()));
            assert(rest.subrange(p@.len() as int, rest.len() as int) =~= s@.subrange(
                i + p@.len(),
                n as int,
            ));
            let mut k: usize = 0;
            let ghost out0 = out@;
            while k < v.len()
                invariant
                    k <= v@.len(),
                    out@ == out0 + v@.subrange(0, k as int),
                decreases v@.len() - k,
            {
                out.push(v[k]);
                k = k + 1;
                assert(out@ =~= out0 + v@.subrange(0, k as int));
            }
            assert(v@.subrange(0, v@.len() as int) =~= v@);
            i = i + p.len();
            assert(replace_all(s@, p@, v@) =~= out@ + replace_all(s@.subrange(i as int, n as int), p@, v@));
        } else {
            assert(!has_prefix(rest, p@)) by {
                if p@.len() <= rest.len() {
                    assert(rest.subrange(0, p@.len() as int) =~= s@.subrange(
                        i as int,
                        i + p@.len(),
                    ));
                }
            }
            assert(rest.drop_first() =~= s@.subrange(i + 1, n as int));
            out.push(s[i]);
            i = i + 1;
            assert(replace_all(s@, p@, v@) =~= out@ + replace_all(s@.subrange(i as int, n as int), p@, v@));
        }
    }
    assert(out@ + Seq::<char>::empty() =~= out@);
    out
}

/// Fills the placeholders of a template (see `rendered`).
pub fn render_template(template: &str, query: &str, env: &SearchEnv) -> (r: String)
    ensures
        r@ == rendered(template@, vars_of(*env, query@)),
{
    let q = chars_of(query);
    let loc = chars_of(env.location.as_str());
    let mut t = chars_of(template);
    t = replace_all_exec(&t, &chars_of("{{query}}"), &q);
    if q.len() == 0 {
        t = replace_all_exec(&t, &chars_of("{{query|location}}"), &loc);
    }
    t = replace_all_exec(&t, &chars_of("{{location}}"), &loc);
    t = replace_all_exec(&t, &chars_of("{{date}}"), &chars_of(env.date.as_str()));
    t = replace_all_exec(&t, &chars_of("{{datetime}}"), &chars_of(env.datetime.as_str()));
    match &env.api_key {
        Some(k) => {
            t = replace_all_exec(&t, &chars_of("{{api_key}}"), &chars_of(k.as_str()));
        },
        None => {},
    }
    string_of(&t)
}

/// The query without the first trigger prefix that it starts with
/// (then trimmed).
pub open spec fn strip_trigger(prefixes: Seq<String>, q: Seq<char>) -> Seq<char>
    decreases prefixes.len(),
{
    if prefixes.len() == 0 {
        q
    } else if has_prefix(q, prefixes[0]@) {
        trim(q.subrange(prefixes[0]@.len() as int, q.len() as int))
    } else {
        strip_trigger(prefixes.drop_first(), q)
    }
}

/// The query a matcher extracts from `pq`: its capture group where it has
/// one and the group took part, else all of `pq`.
pub open spec fn extracted(m: MatcherConfig, pq: Seq<char>) -> Seq<char> {
    match m.query_group {
        Some(g) => match regex_capture_of(m.pattern@, pq, g as nat) {
            Some(Some(c)) => c,
            _ => pq,
        },
        None => pq,
    }
}

/// The first matcher whose regex matches `pq`: the command it names and the
/// query it extracts.
pub open spec fn match_command(matchers: Seq<MatcherConfig>, pq: Seq<char>) -> Option<
    (Seq<char>, Seq<char>),
>
    decreases matchers.len(),
{
    if matchers.len() == 0 {
        None
    } else if regex_matches(matchers[0].pattern@, pq) {
        Some((matchers[0].command@, extracted(matchers[0], pq)))
    } else {
        match_command(matchers.drop_first(), pq)
    }
}

/// Where the command called `id` stands, or -1.
pub open spec fn command_index(commands: Seq<CommandConfig>, id: Seq<char>) -> int
    decreases commands.len(),
{
    if commands.len() == 0 {
        -1
    } else if commands[0].id@ == id {
        0
    } else {
        let r = command_index(commands.drop_first(), id);
        if r < 0 {
            -1
        } else {
            r + 1
        }
    }
}

pub open spec fn pair_views(v: Seq<(String, String)>) -> Seq<(Seq<char>, Seq<char>)> {
    v.map_values(|p: (String, String)| (p.0@, p.1@))
}

/// The parameters with their values rendered.
pub open spec fn rendered_params(v: Seq<(String, String)>, vars: TemplateVars) -> Seq<
    (Seq<char>, Seq<char>),
> {
    v.map_values(|p: (String, String)| (p.0@, rendered(p.1@, vars)))
}

/// What a search that may go out decides.
pub enum Plan {
    /// The selected command is not configured.
    NoCommand,
    /// The command's method is neither GET nor POST.
    BadMethod,
    /// The rendered body is not JSON.
    BadBody,
    /// The request to make.
    Send {
        method: Seq<char>,
        url: Seq<char>,
        headers: Seq<(Seq<char>, Seq<char>)>,
        params: Seq<(Seq<char>, Seq<char>)>,
        body: Option<Seq<char>>,
        command: Seq<char>,
        response_template: Seq<char>,
    },
}

/// The command a query selects (first matching matcher, else the first
/// command) and the query that the templates see.
pub open spec fn selection(c: DynamicProviderConfig, q: Seq<char>) -> (Seq<char>, Seq<char>) {
    let pq = strip_trigger(c.triggers.prefixes@, q);
    match match_command(c.matchers@, pq) {
        Some(m) => m,
        None => (
            if c.commands@.len() > 0 {
                c.commands@[0].id@
            } else {
                Seq::empty()
            },
            pq,
        ),
    }
}

/// The decision for a query once a key is known and no failure is sticky.
pub open spec fn plan_of(c: DynamicProviderConfig, q: Seq<char>, env: SearchEnv) -> Plan {
    let (id, eq) = selection(c, q);
    let i = command_index(c.commands@, id);
    if i < 0 {
        Plan::NoCommand
    } else {
        let cmd = c.commands@[i];
        let vars = vars_of(env, eq);
        if cmd.method@ != "GET"@ && cmd.method@ != "POST"@ {
            Plan::BadMethod
        } else {
            let body = if cmd.method@ == "POST"@ {
                match cmd.body {
                    Some(b) => Some(rendered(b@, vars)),
                    None => None,
                }
            } else {
                None
            };
            if body matches Some(b) && !json_valid_of(b) {
                Plan::BadBody
            } else {
                Plan::Send {
                    method: cmd.method@,
                    url: c.api.base_url@ + cmd.endpoint@,
                    headers: match c.api.headers {
                        Some(h) => pair_views(h@),
                        None => Seq::empty(),
                    },
                    params: match cmd.params {
                        Some(p) => rendered_params(p@, vars),
                        None => Seq::empty(),
                    },
                    body,
                    command: id,
                    response_template: cmd.response_template@,
                }
            }
        }
    }
}

/// An HTTP request for the caller to make.
pub struct HttpRequest {
    pub method: String,
    pub url: String,
    pub headers: Vec<(String, String)>,
    pub params: Vec<(String, String)>,
    pub body: Option<String>,
    pub command_id: String,
    pub response_template: String,
}

/// What the caller got back: a status and a body, or a transport failure.
pub struct HttpResponse {
    pub status: u16,
    pub body: String,
}

/// The next step of a search: an answer now, or a request to make first.
pub enum SearchStep {
    Answer(Result<Vec<ScoredResult>, ProviderError>),
    Request(HttpRequest),
}

/// `step` carries out `plan`.
pub open spec fn follows(step: SearchStep, plan: Plan) -> bool {
    match plan {
        Plan::NoCommand => step matches SearchStep::Answer(Err(ProviderError::Config(_))),
        Plan::BadMethod => step matches SearchStep::Answer(Err(ProviderError::Config(_))),
        Plan::BadBody => step matches SearchStep::Answer(Err(ProviderError::Parsing(_))),
        Plan::Send { method, url, headers, params, body, command, response_template } => {
            &&& step matches SearchStep::Request(h)
            &&& h.method@ == method
            &&& h.url@ == url
            &&& pair_views(h.headers@) == headers
            &&& pair_views(h.params@) == params
            &&& crate::desktop::opt_view(h.body) == body
            &&& h.command_id@ == command
            &&& h.response_template@ == response_template
        },
    }
}

/// The name of the variable that holds the provider's key.
pub open spec fn key_variable(c: DynamicProviderConfig) -> Seq<char> {
    match c.api.api_key_env {
        Some(v) => v@,
        None => "API_KEY"@,
    }
}

/// The id `generate_id` gives `content` under the provider's id.
pub open spec fn provider_action_id(c: DynamicProviderConfig, content: Seq<char>) -> Seq<char> {
    c.provider.id@ + seq!['_'] + hex_of(content_hash_of(content) as nat)
}

pub open spec fn tag_views(v: Seq<String>) -> Seq<Seq<char>> {
    v.map_values(|t: String| t@)
}

/// The pseudo-result that asks the user to set the provider's key.
pub open spec fn is_setup_result(r: ScoredResult, c: DynamicProviderConfig) -> bool {
    &&& r.score == 10
    &&& r.provider_id@ == c.provider.id@
    &&& r.result.id@ == provider_action_id(c, "setup"@)
    &&& r.result.provider@ == c.provider.id@
    &&& r.result.action matches ActionType::Custom { action_id } && action_id@ == "setup"@
    &&& r.result.title@ == c.provider.name@ + " - Setup Required"@
    &&& r.result.description@ == "To use "@ + c.provider.name@ + ", set your API key: export "@
        + key_variable(c) + "=your-key-here"@
    &&& tag_views(r.result.metadata.tags@) == seq!["setup"@, "api-key"@]
}

/// The pseudo-result that says the provider's key was refused.
pub open spec fn is_auth_failed_result(r: ScoredResult, c: DynamicProviderConfig) -> bool {
    &&& r.score == 10
    &&& r.provider_id@ == c.provider.id@
    &&& r.result.id@ == provider_action_id(c, "auth_failed"@)
    &&& r.result.provider@ == c.provider.id@
    &&& r.result.action matches ActionType::Custom { action_id } && action_id@ == "auth_failed"@
    &&& r.result.title@ == c.provider.name@ + " - Invalid API Key"@
    &&& r.result.description@ == "API key for "@ + c.provider.name@
        + " appears to be invalid or expired. Please check your "@ + key_variable(c)
        + " setting."@
    &&& tag_views(r.result.metadata.tags@) == seq!["authentication"@, "api-key"@]
}

/// The result that carries a rendered answer.
pub open spec fn is_answer_result(
    r: ScoredResult,
    c: DynamicProviderConfig,
    query: Seq<char>,
    command: Seq<char>,
    text: Seq<char>,
) -> bool {
    &&& r.score == 100
    &&& r.provider_id@ == c.provider.id@
    &&& r.result.id@ == provider_action_id(c, query)
    &&& r.result.provider@ == c.provider.id@
    &&& r.result.action matches ActionType::Custom { action_id } && action_id@ == command
    &&& r.result.title@ == c.provider.name@ + ": "@ + truncated(query, 30)
    &&& r.result.description@ == text
    &&& r.result.data matches ActionData::Text(t) && t@ == text
    &&& tag_views(r.result.metadata.tags@) == seq![c.provider.id@]
}

fn join3(a: &str, b: &str, c: &str) -> (r: String)
    ensures
        r@ == a@ + b@ + c@,
{
    let ab = concat_str(a, b);
    concat_str(ab.as_str(), c)
}

fn literal_string(s: &str) -> (r: String)
    ensures
        r@ == s@,
{
    String::from_str(s)
}

fn first_prefix_stripped(prefixes: &Vec<String>, query: &str) -> (r: String)
    ensures
        r@ == strip_trigger(prefixes@, query@),
{
    let q = chars_of(query);
    let mut i: usize = 0;
    assert(prefixes@.subrange(0, prefixes@.len() as int) =~= prefixes@);
    while i < prefixes.len()
        invariant
            i <= prefixes@.len(),
            q@ == query@,
            strip_trigger(prefixes@, query@) == strip_trigger(
                prefixes@.subrange(i as int, prefixes@.len() as int),
                query@,
            ),
        decreases prefixes@.len() - i,
    {
        let ghost rest = prefixes@.subrange(i as int, prefixes@.len() as int);
        assert(rest[0] == prefixes@[i as int]);
        let p = chars_of(prefixes[i].as_str());
        if has_prefix_exec(&q, &p) {
            let tail = string_of_range(&q, p.len(), q.len());
            return string_of(&trim_chars(&chars_of(tail.as_str())));
        }
        assert(rest.drop_first() =~= prefixes@.subrange(i + 1, prefixes@.len() as int));
        i = i + 1;
    }
    String::from_str(query)
}

fn select_command(matchers: &Vec<MatcherConfig>, pq: &str) -> (r: Option<(String, String)>)
    ensures
        match r {
            Some(x) => match_command(matchers@, pq@) == Some((x.0@, x.1@)),
            None => match_command(matchers@, pq@) is None,
        },
{
    let mut i: usize = 0;
    assert(matchers@.subrange(0, matchers@.len() as int) =~= matchers@);
    while i < matchers.len()
        invariant
            i <= matchers@.len(),
            match_command(matchers@, pq@) == match_command(
                matchers@.subrange(i as int, matchers@.len() as int),
                pq@,
            ),
        decreases matchers@.len() - i,
    {
        let ghost rest = matchers@.subrange(i as int, matchers@.len() as int);
        assert(rest[0] == matchers@[i as int]);
        let m = &matchers[i];
        if regex_capture(m.pattern.as_str(), pq, 0).is_some() {
            let q = match m.query_group {
                Some(g) => match regex_capture(m.pattern.as_str(), pq, g) {
                    Some(Some(c)) => c,
                    _ => String::from_str(pq),
                },
                None => String::from_str(pq),
            };
            return Some((m.command.clone(), q));
        }
        assert(rest.drop_first() =~= matchers@.subrange(i + 1, matchers@.len() as int));
        i = i + 1;
    }
    None
}

fn find_command(commands: &Vec<CommandConfig>, id: &String) -> (r: Option<usize>)
    ensures
        r matches Some(k) ==> k < commands@.len() && command_index(commands@, id@) == k,
        r is None ==> command_index(commands@, id@) < 0,
{
    let mut i: usize = 0;
    assert(commands@.subrange(0, commands@.len() as int) =~= commands@);
    while i < commands.len()
        invariant
            i <= commands@.len(),
            command_index(commands@, id@) == if command_index(
                commands@.subrange(i as int, commands@.len() as int),
                id@,
            ) < 0 {
                -1
            } else {
                command_index(commands@.subrange(i as int, commands@.len() as int), id@) + i
            },
        decreases commands@.len() - i,
    {
        let ghost rest = commands@.subrange(i as int, commands@.len() as int);
        assert(rest[0] == commands@[i as int]);
        if commands[i].id == *id {
            return Some(i);
        }
        assert(rest.drop_first() =~= commands@.subrange(i + 1, commands@.len() as int));
        i = i + 1;
    }
    None
}

fn copy_pairs(v: &Vec<(String, String)>) -> (r: Vec<(String, String)>)
    ensures
        pair_views(r@) == pair_views(v@),
{
    let mut out: Vec<(String, String)> = Vec::new();
    let mut i: usize = 0;
    while i < v.len()
        invariant
            i <= v@.len(),
            out@.len() == i,
            pair_views(out@) == pair_views(v@.subrange(0, i as int)),
        decreases v@.len() - i,
    {
        let k = v[i].0.clone();
        let val = v[i].1.clone();
        assert(k@ == v@[i as int].0@ && val@ == v@[i as int].1@);
        let ghost before = out@;
        out.push((k, val));
        assert(out@ == before.push((k, val)));
        proof {
            let a = pair_views(out@);
            let b = pair_views(v@.subrange(0, i + 1));
            assert forall|j: int| 0 <= j < i + 1 implies a[j] == b[j] by {
                if j < i {
                    assert(pair_views(before)[j] == pair_views(v@.subrange(0, i as int))[j]);
                }
            }
            assert(a =~= b);
        }
        i = i + 1;
    }
    assert(v@.subrange(0, v@.len() as int) =~= v@);
    out
}

fn render_params(v: &Vec<(String, String)>, query: &str, env: &SearchEnv) -> (r: Vec<(String, String)>)
    ensures
        pair_views(r@) == rendered_params(v@, vars_of(*env, query@)),
{
    let mut out: Vec<(String, String)> = Vec::new();
    let mut i: usize = 0;
    while i < v.len()
        invariant
            i <= v@.len(),
            out@.len() == i,
            pair_views(out@) == rendered_params(v@.subrange(0, i as int), vars_of(*env, query@)),
        decreases v@.len() - i,
    {
        let k = v[i].0.clone();
        let val = render_template(v[i].1.as_str(), query, env);
        assert(k@ == v@[i as int].0@);
        let ghost before = out@;
        out.push((k, val));
        assert(out@ == before.push((k, val)));
        proof {
            let a = pair_views(out@);
            let b = rendered_params(v@.subrange(0, i + 1), vars_of(*env, query@));
            assert forall|j: int| 0 <= j < i + 1 implies a[j] == b[j] by {
                if j < i {
                    assert(pair_views(before)[j] == rendered_params(
                        v@.subrange(0, i as int),
                        vars_of(*env, query@),
                    )[j]);
                }
            }
            assert(a =~= b);
        }
        i = i + 1;
    }
    assert(v@.subrange(0, v@.len() as int) =~= v@);
    out
}

impl DynamicProvider {
    fn tags(a: &str, b: &str) -> (r: Vec<String>)
        ensures
            tag_views(r@) == seq![a@, b@],
    {
        let mut v: Vec<String> = Vec::new();
        v.push(String::from_str(a));
        v.push(String::from_str(b));
        assert(tag_views(v@) =~= seq![a@, b@]);
        v
    }

    fn key_variable_name(&self) -> (r: String)
        ensures
            r@ == key_variable(self@.config),
    {
        match &self.config.api.api_key_env {
            Some(v) => v.clone(),
            None => literal_string("API_KEY"),
        }
    }

    /// The pseudo-result that asks the user to set the provider's key.
    pub fn create_api_key_help_result(&self) -> (r: ScoredResult)
        ensures
            is_setup_result(r, self@.config),
    {
        let var = self.key_variable_name();
        let name = self.config.provider.name.as_str();
        let id = generate_id(self.config.provider.id.as_str(), "setup");
        let description = join3(
            join3("To use ", name, ", set your API key: export ").as_str(),
            var.as_str(),
            "=your-key-here",
        );
        let text = join3(
            "This provider requires an API key. Please set the ",
            var.as_str(),
            " environment variable.",
        );
        let result = ActionResult {
            id,
            provider: self.config.provider.id.clone(),
            action: ActionType::Custom { action_id: literal_string("setup") },
            title: concat_str(name, " - Setup Required"),
            description,
            data: ActionData::Text(text),
            metadata: ActionMetadata {
                icon: Some(literal_string("⚠️")),
                category: Some(literal_string("setup")),
                tags: Self::tags("setup", "api-key"),
                usage_count: 0,
                last_used: None,
            },
        };
        proof {
            reveal_strlit("setup");
        }
        ScoredResult { result, score: 10, provider_id: self.config.provider.id.clone() }
    }

    /// The pseudo-result that says the provider's key was refused.
    pub fn create_auth_failed_result(&self) -> (r: ScoredResult)
        ensures
            is_auth_failed_result(r, self@.config),
    {
        let var = self.key_variable_name();
        let name = self.config.provider.name.as_str();
        let id = generate_id(self.config.provider.id.as_str(), "auth_failed");
        let description = join3(
            join3("API key for ", name, " appears to be invalid or expired. Please check your ").as_str(),
            var.as_str(),
            " setting.",
        );
        let text = join3(
            "Authentication failed. Please verify your ",
            var.as_str(),
            " environment variable.",
        );
        let result = ActionResult {
            id,
            provider: self.config.provider.id.clone(),
            action: ActionType::Custom { action_id: literal_string("auth_failed") },
            title: concat_str(name, " - Invalid API Key"),
            description,
            data: ActionData::Text(text),
            metadata: ActionMetadata {
                icon: Some(literal_string("🔑")),
                category: Some(literal_string("error")),
                tags: Self::tags("authentication", "api-key"),
                usage_count: 0,
                last_used: None,
            },
        };
        proof {
            reveal_strlit("auth_failed");
        }
        ScoredResult { result, score: 10, provider_id: self.config.provider.id.clone() }
    }

    /// The first step of a search. Without a key: the setup pseudo-result,
    /// and no request. With a key refused since the last reconfiguration:
    /// the invalid-key pseudo-result, and no request. Otherwise the request
    /// that `plan_of` describes, or the configuration or parsing error that
    /// stops it.
    pub fn begin_search(&self, query: &str, env: &SearchEnv) -> (r: SearchStep)
        ensures
            env.api_key is None ==> (r matches SearchStep::Answer(Ok(v)) && v@.len() == 1
                && is_setup_result(v@[0], self@.config)),
            env.api_key is Some && self@.auth_failed ==> (r matches SearchStep::Answer(Ok(v))
                && v@.len() == 1 && is_auth_failed_result(v@[0], self@.config)),
            env.api_key is Some && !self@.auth_failed ==> follows(
                r,
                plan_of(self@.config, query@, *env),
            ),
    {
        if env.api_key.is_none() {
            let mut v: Vec<ScoredResult> = Vec::new();
            v.push(self.create_api_key_help_result());
            return SearchStep::Answer(Ok(v));
        }
        if self.auth_failed {
            let mut v: Vec<ScoredResult> = Vec::new();
            v.push(self.create_auth_failed_result());
            return SearchStep::Answer(Ok(v));
        }
        let pq = first_prefix_stripped(&self.config.triggers.prefixes, query);
        let (command_id, eq) = match select_command(&self.config.matchers, pq.as_str()) {
            Some(x) => x,
            None => {
                let id = if self.config.commands.len() > 0 {
                    self.config.commands[0].id.clone()
                } else {
                    String::new()
                };
                (id, pq)
            },
        };
        assert(selection(self@.config, query@) == (command_id@, eq@));
        let i = match find_command(&self.config.commands, &command_id) {
            Some(i) => i,
            None => {
                let msg = join3("Command '", command_id.as_str(), "' not found");
                return SearchStep::Answer(Err(ProviderError::Config(msg)));
            },
        };
        let cmd = &self.config.commands[i];
        proof {
            reveal_strlit("GET");
            reveal_strlit("POST");
        }
        let method = chars_of(cmd.method.as_str());
        let is_get = same_chars(&method, &chars_of("GET"));
        let is_post = same_chars(&method, &chars_of("POST"));
        if !is_get && !is_post {
            return SearchStep::Answer(
                Err(ProviderError::Config(literal_string("Unsupported HTTP method"))),
            );
        }
        let body: Option<String> = if is_post {
            match &cmd.body {
                Some(b) => Some(render_template(b.as_str(), eq.as_str(), env)),
                None => None,
            }
        } else {
            None
        };
        match &body {
            Some(b) => match parse_json(b.as_str()) {
                Ok(_) => {},
                Err(e) => {
                    return SearchStep::Answer(Err(ProviderError::Parsing(e)));
                },
            },
            None => {},
        }
        let headers = match &self.config.api.headers {
            Some(h) => copy_pairs(h),
            None => {
                let v: Vec<(String, String)> = Vec::new();
                assert(pair_views(v@) =~= Seq::<(Seq<char>, Seq<char>)>::empty());
                v
            },
        };
        let params = match &cmd.params {
            Some(p) => render_params(p, eq.as_str(), env),
            None => {
                let v: Vec<(String, String)> = Vec::new();
                assert(pair_views(v@) =~= Seq::<(Seq<char>, Seq<char>)>::empty());
                v
            },
        };
        let request = HttpRequest {
            method: cmd.method.clone(),
            url: concat_str(self.config.api.base_url.as_str(), cmd.endpoint.as_str()),
            headers,
            params,
            body,
            command_id,
            response_template: cmd.response_template.clone(),
        };
        SearchStep::Request(request)
    }
}

/// The icon of a provider's answers, by provider id.
pub open spec fn icon_of(id: Seq<char>) -> Seq<char> {
    if id == "weather"@ {
        "☁️"@
    } else if id == "sports"@ {
        "🏆"@
    } else if id == "stocks"@ {
        "📈"@
    } else if id == "news"@ {
        "📰"@
    } else {
        "🔌"@
    }
}

/// The answer text for a 2xx body: the response template rendered over
/// the body, where the body is JSON and the template renders.
pub open spec fn rendered_answer(template: Seq<char>, body: Seq<char>) -> Option<Seq<char>> {
    if json_valid_of(body) {
        rendered_json_of(template, body)
    } else {
        None
    }
}

/// A status of the 2xx family.
pub open spec fn is_success(status: u16) -> bool {
    200 <= status < 300
}

impl DynamicProvider {
    /// The icon of this provider's answers.
    pub fn get_icon(&self) -> (r: String)
        ensures
            r@ == icon_of(self@.config.provider.id@),
    {
        let id = chars_of(self.config.provider.id.as_str());
        if same_chars(&id, &chars_of("weather")) {
            literal_string("☁️")
        } else if same_chars(&id, &chars_of("sports")) {
            literal_string("🏆")
        } else if same_chars(&id, &chars_of("stocks")) {
            literal_string("📈")
        } else if same_chars(&id, &chars_of("news")) {
            literal_string("📰")
        } else {
            literal_string("🔌")
        }
    }

    /// The result that carries the rendered answer `text` to `query`.
    pub fn response_result(&self, query: &str, command_id: &str, text: String) -> (r: ScoredResult)
        ensures
            is_answer_result(r, self@.config, query@, command_id@, text@),
    {
        let id = generate_id(self.config.provider.id.as_str(), query);
        let title = join3(
            self.config.provider.name.as_str(),
            ": ",
            truncate_text(query, 30).as_str(),
        );
        let mut tags: Vec<String> = Vec::new();
        tags.push(self.config.provider.id.clone());
        assert(tag_views(tags@) =~= seq![self@.config.provider.id@]);
        let result = ActionResult {
            id,
            provider: self.config.provider.id.clone(),
            action: ActionType::Custom { action_id: String::from_str(command_id) },
            title,
            description: text.clone(),
            data: ActionData::Text(text),
            metadata: ActionMetadata {
                icon: Some(self.get_icon()),
                category: Some(self.config.provider.id.clone()),
                tags,
                usage_count: 0,
                last_used: None,
            },
        };
        ScoredResult { result, score: 100, provider_id: self.config.provider.id.clone() }
    }

    /// The last step of a search, on what the request of `begin_search`
    /// brought back. A transport failure is a network error. A 401 makes
    /// the failure sticky and is an API error; another status outside 2xx
    /// is an API error with that status. A 2xx body is read as JSON and
    /// rendered through the command's template: one answer result, or a
    /// parsing error.
    pub fn finish_search(
        &mut self,
        query: &str,
        request: &HttpRequest,
        response: Result<HttpResponse, String>,
    ) -> (r: Result<Vec<ScoredResult>, ProviderError>)
        ensures
            final(self)@.config == old(self)@.config,
            match response {
                Err(m) => final(self)@ == old(self)@ && (r matches Err(ProviderError::Network(e))
                    && e@ == m@),
                Ok(resp) => if resp.status == 401 {
                    final(self)@.auth_failed && (r matches Err(
                        ProviderError::Api { status, message: _ },
                    ) && status == 401)
                } else if !is_success(resp.status) {
                    final(self)@ == old(self)@ && (r matches Err(
                        ProviderError::Api { status, message: _ },
                    ) && status == resp.status)
                } else {
                    &&& final(self)@ == old(self)@
                    &&& match rendered_answer(request.response_template@, resp.body@) {
                        Some(t) => r matches Ok(v) && v@.len() == 1 && is_answer_result(
                            v@[0],
                            old(self)@.config,
                            query@,
                            request.command_id@,
                            t,
                        ),
                        None => r matches Err(ProviderError::Parsing(_)),
                    }
                },
            },
    {
        let resp = match response {
            Err(m) => {
                return Err(ProviderError::Network(m));
            },
            Ok(resp) => resp,
        };
        if resp.status == 401 {
            self.auth_failed = true;
            return Err(
                ProviderError::Api {
                    status: 401,
                    message: literal_string("Authentication failed - invalid or missing API key"),
                },
            );
        }
        if resp.status < 200 || resp.status >= 300 {
            let message = concat_str(
                "API request failed: ",
                crate::text::decimal_string(resp.status as u64).as_str(),
            );
            return Err(ProviderError::Api { status: resp.status, message });
        }
        match render_json(request.response_template.as_str(), resp.body.as_str()) {
            Ok(text) => {
                let ghost t = text@;
                let r = self.response_result(query, request.command_id.as_str(), text);
                let mut v: Vec<ScoredResult> = Vec::new();
                v.push(r);
                assert(is_answer_result(v@[0], self@.config, query@, request.command_id@, t));
                Ok(v)
            },
            Err(e) => Err(ProviderError::Parsing(e)),
        }
    }
}

/// A provider file's text with its enabled flag switched: every
/// `enabled = false` becomes `enabled = true`, or the other way round.
pub open spec fn with_enabled_flag(content: Seq<char>, enabled: bool) -> Seq<char> {
    if enabled {
        replace_all(content, "enabled = false"@, "enabled = true"@)
    } else {
        replace_all(content, "enabled = true"@, "enabled = false"@)
    }
}

/// Switches the enabled flag in a provider file's text.
pub fn set_enabled_flag(content: &str, enabled: bool) -> (r: String)
    ensures
        r@ == with_enabled_flag(content@, enabled),
{
    let text = chars_of(content);
    let on = chars_of("enabled = true");
    let off = chars_of("enabled = false");
    let out = if enabled {
        replace_all_exec(&text, &off, &on)
    } else {
        replace_all_exec(&text, &on, &off)
    };
    string_of(&out)
}

/// Where `p` first occurs in `s`, or -1.
pub open spec fn first_occurrence(s: Seq<char>, p: Seq<char>) -> int
    decreases s.len(),
{
    if p.len() > s.len() {
        -1
    } else if has_prefix(s, p) {
        0
    } else if s.len() == 0 {
        -1
    } else {
        let r = first_occurrence(s.drop_first(), p);
        if r < 0 {
            -1
        } else {
            r + 1
        }
    }
}

/// The quoted value of `field` on one line: the text after the first
/// `field =`, trimmed, if it is in double quotes.
pub open spec fn quoted_value(line: Seq<char>, field: Seq<char>) -> Option<Seq<char>> {
    let key = field + " ="@;
    let pos = first_occurrence(line, key);
    if pos < 0 {
        None
    } else {
        let v = trim(line.subrange(pos + key.len(), line.len() as int));
        if v.len() >= 2 && v[0] == '"' && v.last() == '"' {
            Some(v.subrange(1, v.len() - 1))
        } else {
            None
        }
    }
}

/// The first quoted value of `field` among the lines.
pub open spec fn field_in_lines(lines: Seq<Seq<char>>, field: Seq<char>) -> Option<Seq<char>>
    decreases lines.len(),
{
    if lines.len() == 0 {
        None
    } else {
        match quoted_value(lines[0], field) {
            Some(v) => Some(v),
            None => field_in_lines(lines.drop_first(), field),
        }
    }
}

fn first_occurrence_exec(s: &Vec<char>, p: &Vec<char>) -> (r: Option<usize>)
    ensures
        r matches Some(k) ==> first_occurrence(s@, p@) == k as int && k + p@.len() <= s@.len(),
        r is None ==> first_occurrence(s@, p@) < 0,
{
    let n = s.len();
    let mut i: usize = 0;
    assert(s@.subrange(0, n as int) =~= s@);
    while i <= n
        invariant
            n == s@.len(),
            i <= n + 1,
            i <= n ==> first_occurrence(s@, p@) == if first_occurrence(s@.subrange(i as int, n as int), p@) < 0 {
                -1
            } else {
                first_occurrence(s@.subrange(i as int, n as int), p@) + i
            },
            i > n ==> first_occurrence(s@, p@) < 0,
        decreases n + 1 - i,
    {
        let ghost rest = s@.subrange(i as int, n as int);
        if occurs_at_exec(s, p, i) {
            assert(rest.subrange(0, p@.len() as int) =~= s@.subrange(i as int, i + p@.len()));
            return Some(i);
        }
        proof {
            if p@.len() <= rest.len() {
                assert(rest.subrange(0, p@.len() as int) =~= s@.subrange(i as int, i + p@.len()));
            }
            if i < n {
                assert(rest.drop_first() =~= s@.subrange(i + 1, n as int));
            }
        }
        if i == n {
            proof {
                assert(first_occurrence(rest, p@) < 0);
            }
            return None;
        }
        i = i + 1;
    }
    None
}

/// The first quoted value of `field = "..."` in a provider file's text,
/// line by line.
pub fn extract_field(content: &str, field: &str) -> (r: Option<String>)
    ensures
        match r {
            Some(v) => field_in_lines(crate::desktop::split_on(content@, '\n'), field@) == Some(v@),
            None => field_in_lines(crate::desktop::split_on(content@, '\n'), field@) is None,
        },
{
    let chars = chars_of(content);
    let lines = crate::desktop::split_chars(&chars, '\n');
    let ghost ls = crate::desktop::views_of(lines@);
    let key = chars_of(concat_str(field, " =").as_str());
    let mut i: usize = 0;
    assert(ls.subrange(0, ls.len() as int) =~= ls);
    while i < lines.len()
        invariant
            i <= lines@.len(),
            ls == crate::desktop::views_of(lines@),
            ls == crate::desktop::split_on(content@, '\n'),
            key@ == field@ + " ="@,
            field_in_lines(ls, field@) == field_in_lines(ls.subrange(i as int, ls.len() as int), field@),
        decreases lines@.len() - i,
    {
        let ghost rest = ls.subrange(i as int, ls.len() as int);
        assert(rest[0] == lines@[i as int]@);
        assert(rest.drop_first() =~= ls.subrange(i + 1, ls.len() as int));
        let line = &lines[i];
        let line_len = line.len();
        match first_occurrence_exec(line, &key) {
            Some(pos) => {
                assert(pos + key@.len() <= line_len);
                let tail = chars_of(string_of_range(line, pos + key.len(), line.len()).as_str());
                let v = trim_chars(&tail);
                if v.len() >= 2 && v[0] == '"' && v[v.len() - 1] == '"' {
                    let r = string_of_range(&v, 1, v.len() - 1);
                    assert(v@.last() == v@[v@.len() - 1]);
                    assert(quoted_value(line@, field@) == Some(r@));
                    assert(field_in_lines(rest, field@) == Some(r@));
                    return Some(r);
                }
            },
            None => {},
        }
        i = i + 1;
    }
    None
}

} // verus!
