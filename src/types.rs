//! The values passed between providers, the orchestrator and their callers.
use vstd::prelude::*;
use crate::text::{concat_str, dec_of, decimal_string};

verus! {

/// What executing a result does.
#[derive(Debug, Clone)]
pub enum ActionType {
    Launch { needs_terminal: bool },
    Navigate { path: String },
    AiResponse,
    Custom { action_id: String },
}

/// The payload that an action carries; `Custom` holds JSON text.
#[derive(Debug, Clone)]
pub enum ActionData {
    Command(String),
    Path(String),
    Text(String),
    Custom(String),
}

/// Display hints of a result; `last_used` is in seconds since the Unix epoch.
#[derive(Debug, Clone)]
pub struct ActionMetadata {
    pub icon: Option<String>,
    pub category: Option<String>,
    pub tags: Vec<String>,
    pub usage_count: u32,
    pub last_used: Option<i64>,
}

/// One candidate action. `id` is derived from the action's natural key, so
/// the same action has the same id in every run.
#[derive(Debug, Clone)]
pub struct ActionResult {
    pub id: String,
    pub provider: String,
    pub action: ActionType,
    pub title: String,
    pub description: String,
    pub data: ActionData,
    pub metadata: ActionMetadata,
}

/// A candidate with its score for one query.
#[derive(Debug, Clone)]
pub struct ScoredResult {
    pub result: ActionResult,
    pub score: i32,
    pub provider_id: String,
}

/// Messages between a live search and the screen that shows it.
#[derive(Debug, Clone)]
pub enum SearchMessage {
    Query { query: String, provider_id: Option<String> },
    Results(Vec<ScoredResult>),
    Error(String),
    Loading(bool),
}

/// Why a provider could not answer.
#[derive(Debug, Clone)]
pub enum ProviderError {
    Network(String),
    Api { status: u16, message: String },
    Config(String),
    Parsing(String),
    Command(String),
    Unavailable(String),
}

/// Errors of the application around the providers.
#[derive(Debug, Clone)]
pub enum AppError {
    Io(String),
    Config(String),
    Terminal(String),
    ActionExecution(String),
    Provider(ProviderError),
    Search(String),
}

impl ActionMetadata {
    /// No icon, category or tags, never used.
    pub fn empty() -> (r: Self)
        ensures
            r.icon is None,
            r.category is None,
            r.tags@.len() == 0,
            r.usage_count == 0,
            r.last_used is None,
    {
        ActionMetadata {
            icon: None,
            category: None,
            tags: Vec::new(),
            usage_count: 0,
            last_used: None,
        }
    }
}

impl ActionResult {
    /// A result that runs `command`.
    pub fn new_launch(
        id: String,
        provider: String,
        title: String,
        command: String,
        needs_terminal: bool,
    ) -> (r: Self)
        ensures
            r.id == id,
            r.provider == provider,
            r.title == title,
            r.description@.len() == 0,
            r.action == (ActionType::Launch { needs_terminal }),
            r.data == ActionData::Command(command),
            r.metadata.tags@.len() == 0,
    {
        ActionResult {
            id,
            provider,
            action: ActionType::Launch { needs_terminal },
            title,
            description: String::new(),
            data: ActionData::Command(command),
            metadata: ActionMetadata::empty(),
        }
    }

    /// A result that opens a terminal in `path`.
    pub fn new_navigate(id: String, provider: String, title: String, path: String) -> (r: Self)
        ensures
            r.id == id,
            r.provider == provider,
            r.title == title,
            r.description@.len() == 0,
            r.action == (ActionType::Navigate { path }),
            r.data == ActionData::Path(path),
            r.metadata.tags@.len() == 0,
    {
        let p = path.clone();
        ActionResult {
            id,
            provider,
            action: ActionType::Navigate { path: p },
            title,
            description: String::new(),
            data: ActionData::Path(path),
            metadata: ActionMetadata::empty(),
        }
    }

    /// A result that shows an answer of the AI provider.
    pub fn new_ai_response(id: String, title: String, response: String) -> (r: Self)
        ensures
            r.id == id,
            r.provider@ == "ai"@,
            r.title == title,
            r.description@.len() == 0,
            r.action == ActionType::AiResponse,
            r.data == ActionData::Text(response),
            r.metadata.tags@.len() == 0,
    {
        ActionResult {
            id,
            provider: String::from_str("ai"),
            action: ActionType::AiResponse,
            title,
            description: String::new(),
            data: ActionData::Text(response),
            metadata: ActionMetadata::empty(),
        }
    }

    /// The same result with another description.
    pub fn with_description(self, description: String) -> (r: Self)
        ensures
            r == (ActionResult { description, ..self }),
    {
        let mut r = self;
        r.description = description;
        r
    }

    /// The same result with other metadata.
    pub fn with_metadata(self, metadata: ActionMetadata) -> (r: Self)
        ensures
            r == (ActionResult { metadata, ..self }),
    {
        let mut r = self;
        r.metadata = metadata;
        r
    }
}

impl ScoredResult {
    pub fn new(result: ActionResult, score: i32, provider_id: String) -> (r: Self)
        ensures
            r == (ScoredResult { result, score, provider_id }),
    {
        ScoredResult { result, score, provider_id }
    }
}

/// The text that describes a provider error.
pub open spec fn provider_error_text(e: ProviderError) -> Seq<char> {
    match e {
        ProviderError::Network(m) => "Network error: "@ + m@,
        ProviderError::Api { status, message } => "API error: "@ + dec_of(status as nat) + " - "@
            + message@,
        ProviderError::Config(m) => "Configuration error: "@ + m@,
        ProviderError::Parsing(m) => "Data parsing error: "@ + m@,
        ProviderError::Command(m) => "External command failed: "@ + m@,
        ProviderError::Unavailable(m) => "Provider unavailable: "@ + m@,
    }
}

impl ProviderError {
    /// A sentence for the log or the screen.
    pub fn message(&self) -> (r: String)
        ensures
            r@ == provider_error_text(*self),
    {
        match self {
            ProviderError::Network(m) => concat_str("Network error: ", m.as_str()),
            ProviderError::Api { status, message } => {
                let head = concat_str("API error: ", decimal_string(*status as u64).as_str());
                let mid = concat_str(head.as_str(), " - ");
                let r = concat_str(mid.as_str(), message.as_str());
                assert(r@ =~= provider_error_text(*self));
                r
            },
            ProviderError::Config(m) => concat_str("Configuration error: ", m.as_str()),
            ProviderError::Parsing(m) => concat_str("Data parsing error: ", m.as_str()),
            ProviderError::Command(m) => concat_str("External command failed: ", m.as_str()),
            ProviderError::Unavailable(m) => concat_str("Provider unavailable: ", m.as_str()),
        }
    }
}

/// The text that describes an application error.
pub open spec fn app_error_text(e: AppError) -> Seq<char> {
    match e {
        AppError::Io(m) => "IO error: "@ + m@,
        AppError::Config(m) => "Configuration error: "@ + m@,
        AppError::Terminal(m) => "Terminal error: "@ + m@,
        AppError::ActionExecution(m) => "Action execution error: "@ + m@,
        AppError::Provider(p) => "Provider error: "@ + provider_error_text(p),
        AppError::Search(m) => "Search error: "@ + m@,
    }
}

impl AppError {
    /// A sentence for the log or the screen.
    pub fn message(&self) -> (r: String)
        ensures
            r@ == app_error_text(*self),
    {
        match self {
            AppError::Io(m) => concat_str("IO error: ", m.as_str()),
            AppError::Config(m) => concat_str("Configuration error: ", m.as_str()),
            AppError::Terminal(m) => concat_str("Terminal error: ", m.as_str()),
            AppError::ActionExecution(m) => concat_str("Action execution error: ", m.as_str()),
            AppError::Provider(e) => concat_str("Provider error: ", e.message().as_str()),
            AppError::Search(m) => concat_str("Search error: ", m.as_str()),
        }
    }
}

} // verus!
