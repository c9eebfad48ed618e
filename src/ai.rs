//! The AI provider: answers queries that start with `ai:` or `ask:` by one
//! question to a language model, which the caller sends.
use vstd::prelude::*;
use crate::text::{
    chars_of, concat_str, has_infix, has_infix_exec, has_prefix, has_prefix_exec, string_of,
    string_of_range, trim, trim_chars,
};
use crate::types::{ActionData, ActionMetadata, ActionResult, ActionType, ProviderError, ScoredResult};
use crate::utils::{content_hash_of, generate_id, hex_of, truncate_text, truncated};

verus! {

/// What the model is told before the user's question.
pub const SYSTEM_PROMPT: &'static str = "You are a helpful assistant. Provide concise, factual responses. If a math question is asked, provide only the numerical answer. For other statements, respond in the most reasonable way possible. If you CANNOT come up with a reasonable response, output [INVALID]. User question: ";

/// The question in an AI query: the text after `ai:` or `ask:`, trimmed;
/// None for other queries and for an empty question.
pub open spec fn ai_question(q: Seq<char>) -> Option<Seq<char>> {
    let rest = if has_prefix(q, "ai:"@) {
        Some(trim(q.subrange(3, q.len() as int)))
    } else if has_prefix(q, "ask:"@) {
        Some(trim(q.subrange(4, q.len() as int)))
    } else {
        None
    };
    match rest {
        Some(r) => if r.len() > 0 {
            Some(r)
        } else {
            None
        },
        None => None,
    }
}

/// The answer result for `question`.
pub open spec fn is_ai_result(r: ScoredResult, question: Seq<char>, answer: Seq<char>) -> bool {
    &&& r.score == 1000
    &&& r.provider_id@ == "ai"@
    &&& r.result.provider@ == "ai"@
    &&& r.result.id@ == "ai"@ + seq!['_'] + hex_of(content_hash_of(question) as nat)
    &&& r.result.title@ == "AI: "@ + truncated(question, 50)
    &&& r.result.description@ == answer
    &&& r.result.action == ActionType::AiResponse
    &&& r.result.data matches ActionData::Text(t) && t@ == answer
}

/// Answers `ai:` and `ask:` queries when a key for the model is present.
pub struct AiProvider {
    enabled: bool,
}

impl AiProvider {
    /// A provider that is enabled when the model's key is present.
    pub fn new(key_present: bool) -> (r: Self)
        ensures
            r.is_enabled() == key_present,
    {
        AiProvider { enabled: key_present }
    }

    pub closed spec fn is_enabled(&self) -> bool {
        self.enabled
    }

    pub fn enabled(&self) -> (r: bool)
        ensures
            r == self.is_enabled(),
    {
        self.enabled
    }

    pub fn id(&self) -> (r: &'static str)
        ensures
            r@ == "ai"@,
    {
        "ai"
    }

    pub fn name(&self) -> (r: &'static str)
        ensures
            r@ == "AI Assistant"@,
    {
        "AI Assistant"
    }

    /// AI answers rank high.
    pub fn priority(&self) -> (r: u8)
        ensures
            r == 80,
    {
        80
    }

    /// Checks again whether the model's key is present.
    pub fn configure(&mut self, key_present: bool)
        ensures
            final(self).is_enabled() == key_present,
    {
        self.enabled = key_present;
    }

    /// Only explicit AI queries, so that typing never calls the model by
    /// accident.
    pub fn can_handle(&self, query: &str) -> (r: bool)
        ensures
            r == (self.is_enabled() && (has_prefix(query@, "ai:"@) || has_prefix(query@, "ask:"@))),
    {
        let q = chars_of(query);
        self.enabled && (has_prefix_exec(&q, &chars_of("ai:")) || has_prefix_exec(
            &q,
            &chars_of("ask:"),
        ))
    }

    /// The question to put to the model, if the provider is enabled and the
    /// query asks one.
    pub fn question(&self, query: &str) -> (r: Option<String>)
        ensures
            !self.is_enabled() ==> r is None,
            self.is_enabled() ==> match r {
                Some(s) => ai_question(query@) == Some(s@),
                None => ai_question(query@) is None,
            },
    {
        if !self.enabled {
            return None;
        }
        proof {
            reveal_strlit("ai:");
            reveal_strlit("ask:");
        }
        let q = chars_of(query);
        let rest = if has_prefix_exec(&q, &chars_of("ai:")) {
            trim_chars(&chars_of(string_of_range(&q, 3, q.len()).as_str()))
        } else if has_prefix_exec(&q, &chars_of("ask:")) {
            trim_chars(&chars_of(string_of_range(&q, 4, q.len()).as_str()))
        } else {
            return None;
        };
        if rest.len() == 0 {
            None
        } else {
            Some(string_of(&rest))
        }
    }

    /// The full prompt for a question.
    pub fn prompt(&self, question: &str) -> (r: String)
        ensures
            r@ == SYSTEM_PROMPT@ + question@,
    {
        concat_str(SYSTEM_PROMPT, question)
    }

    /// The results for the model's reply to `question`: none when the model
    /// says it cannot answer (`[INVALID]`), else one answer result; a
    /// failed call is an API error with status 500.
    pub fn answer(&self, question: &str, reply: Result<String, String>) -> (r: Result<
        Vec<ScoredResult>,
        ProviderError,
    >)
        ensures
            match reply {
                Err(m) => r matches Err(ProviderError::Api { status, message }) && status == 500
                    && message@ == "AI service error: "@ + m@,
                Ok(t) => if has_infix(t@, "[INVALID]"@) {
                    r matches Ok(v) && v@.len() == 0
                } else {
                    r matches Ok(v) && v@.len() == 1 && is_ai_result(v@[0], question@, t@)
                },
            },
    {
        match reply {
            Err(m) => {
                let message = concat_str("AI service error: ", m.as_str());
                Err(ProviderError::Api { status: 500, message })
            },
            Ok(text) => {
                if has_infix_exec(&chars_of(text.as_str()), &chars_of("[INVALID]")) {
                    return Ok(Vec::new());
                }
                let id = generate_id("ai", question);
                proof {
                    reveal_strlit("ai");
                }
                let title = concat_str("AI: ", truncate_text(question, 50).as_str());
                let mut tags: Vec<String> = Vec::new();
                tags.push(String::from_str("ai"));
                tags.push(String::from_str("assistant"));
                let result = ActionResult {
                    id,
                    provider: String::from_str("ai"),
                    action: ActionType::AiResponse,
                    title,
                    description: text.clone(),
                    data: ActionData::Text(text),
                    metadata: ActionMetadata {
                        icon: Some(String::from_str("brain")),
                        category: Some(String::from_str("ai")),
                        tags,
                        usage_count: 0,
                        last_used: None,
                    },
                };
                let mut v: Vec<ScoredResult> = Vec::new();
                v.push(ScoredResult { result, score: 1000, provider_id: String::from_str("ai") });
                Ok(v)
            },
        }
    }
}

} // verus!
