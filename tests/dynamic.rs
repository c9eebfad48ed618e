use wayfindr::dynamic::{
    ApiConfig, CommandConfig, DynamicProvider, DynamicProviderConfig, HttpResponse, MatcherConfig,
    ProviderInfo, SearchEnv, SearchStep, TriggerConfig, render_template,
};
use wayfindr::types::{ActionData, ActionType, ProviderError};

fn weather_config() -> DynamicProviderConfig {
    DynamicProviderConfig {
        provider: ProviderInfo {
            id: "weather".to_string(),
            name: "Weather".to_string(),
            priority: 60,
            enabled: true,
        },
        triggers: TriggerConfig {
            prefixes: vec!["weather ".to_string(), "w:".to_string()],
            patterns: vec!["forecast".to_string()],
        },
        api: ApiConfig {
            api_type: "rest".to_string(),
            base_url: "https://api.example.com".to_string(),
            api_key_env: Some("WEATHER_KEY".to_string()),
            headers: Some(vec![("Accept".to_string(), "application/json".to_string())]),
        },
        commands: vec![
            CommandConfig {
                id: "current".to_string(),
                name: "Current".to_string(),
                endpoint: "/weather".to_string(),
                method: "GET".to_string(),
                params: Some(vec![
                    ("q".to_string(), "{{query|location}}".to_string()),
                    ("appid".to_string(), "{{api_key}}".to_string()),
                ]),
                body: None,
                response_template: "{{main.temp}} degrees".to_string(),
            },
            CommandConfig {
                id: "forecast".to_string(),
                name: "Forecast".to_string(),
                endpoint: "/forecast".to_string(),
                method: "POST".to_string(),
                params: None,
                body: Some("{\"city\":\"{{query}}\",\"day\":\"{{date}}\"}".to_string()),
                response_template: "{{summary}}".to_string(),
            },
        ],
        matchers: vec![MatcherConfig {
            pattern: "^forecast (?:for )?(.+)$".to_string(),
            command: "forecast".to_string(),
            query_group: Some(1),
            use_location: Some(true),
        }],
    }
}

fn env(key: Option<&str>) -> SearchEnv {
    SearchEnv {
        api_key: key.map(|k| k.to_string()),
        location: "Orlando,FL,US".to_string(),
        date: "2024-05-01".to_string(),
        datetime: "2024-05-01T10:00:00+00:00".to_string(),
    }
}

fn provider() -> DynamicProvider {
    DynamicProvider::from_config(weather_config()).unwrap()
}

#[test]
fn missing_key_gives_setup_result_and_no_request() {
    let p = provider();
    match p.begin_search("weather Paris", &env(None)) {
        SearchStep::Answer(Ok(results)) => {
            assert_eq!(results.len(), 1);
            assert_eq!(results[0].score, 10);
            assert!(results[0].result.metadata.tags.contains(&"setup".to_string()));
            assert_eq!(results[0].result.title, "Weather - Setup Required");
            assert!(results[0].result.description.contains("export WEATHER_KEY=your-key-here"));
        }
        _ => panic!("expected the setup result"),
    }
}

#[test]
fn unauthorized_answer_is_sticky_until_reconfigured() {
    let mut p = provider();
    let request = match p.begin_search("weather Paris", &env(Some("k"))) {
        SearchStep::Request(r) => r,
        _ => panic!("expected a request"),
    };
    let first = p.finish_search(
        "weather Paris",
        &request,
        Ok(HttpResponse { status: 401, body: String::new() }),
    );
    assert!(matches!(first, Err(ProviderError::Api { status: 401, .. })));
    assert!(p.auth_failed());
    match p.begin_search("weather Paris", &env(Some("k"))) {
        SearchStep::Answer(Ok(results)) => {
            assert_eq!(results.len(), 1);
            assert_eq!(results[0].result.title, "Weather - Invalid API Key");
            assert!(results[0].result.metadata.tags.contains(&"authentication".to_string()));
        }
        _ => panic!("expected the invalid-key result without a request"),
    }
    p.configure();
    p.configure();
    assert!(!p.auth_failed());
    assert!(matches!(p.begin_search("weather Paris", &env(Some("k"))), SearchStep::Request(_)));
}

#[test]
fn reconfiguring_keeps_triggers_and_priority() {
    let mut p = provider();
    let queries = ["weather Paris", "w:Rome", "the forecast", "forecast for Oslo", "hello", "", "apps"];
    let before: Vec<bool> = queries.iter().map(|q| p.can_handle(q)).collect();
    p.configure();
    p.configure();
    let after: Vec<bool> = queries.iter().map(|q| p.can_handle(q)).collect();
    assert_eq!(before, after);
    assert_eq!(before, vec![true, true, true, true, false, false, false]);
    assert_eq!(p.priority(), 60);
}

#[test]
fn disabled_provider_takes_nothing() {
    let mut config = weather_config();
    config.provider.enabled = false;
    let p = DynamicProvider::from_config(config).unwrap();
    assert!(!p.can_handle("weather Paris"));
}

#[test]
fn get_request_strips_prefix_and_renders_params() {
    let p = provider();
    match p.begin_search("weather Paris", &env(Some("secret"))) {
        SearchStep::Request(r) => {
            assert_eq!(r.method, "GET");
            assert_eq!(r.url, "https://api.example.com/weather");
            assert_eq!(r.command_id, "current");
            assert_eq!(r.body, None);
            assert_eq!(
                r.params,
                vec![
                    ("q".to_string(), "{{query|location}}".to_string()),
                    ("appid".to_string(), "secret".to_string()),
                ]
            );
            assert_eq!(r.headers, vec![("Accept".to_string(), "application/json".to_string())]);
        }
        _ => panic!("expected a request"),
    }
    match p.begin_search("weather ", &env(Some("secret"))) {
        SearchStep::Request(r) => {
            assert_eq!(r.params[0].1, "Orlando,FL,US");
        }
        _ => panic!("expected a request"),
    }
}

#[test]
fn matcher_selects_command_and_capture() {
    let p = provider();
    match p.begin_search("forecast for Oslo", &env(Some("k"))) {
        SearchStep::Request(r) => {
            assert_eq!(r.method, "POST");
            assert_eq!(r.command_id, "forecast");
            assert_eq!(r.body, Some("{\"city\":\"Oslo\",\"day\":\"2024-05-01\"}".to_string()));
        }
        _ => panic!("expected a request"),
    }
}

#[test]
fn unknown_command_and_method_are_config_errors() {
    let mut config = weather_config();
    config.matchers[0].command = "missing".to_string();
    let p = DynamicProvider::from_config(config).unwrap();
    match p.begin_search("forecast Oslo", &env(Some("k"))) {
        SearchStep::Answer(Err(ProviderError::Config(m))) => assert_eq!(m, "Command 'missing' not found"),
        _ => panic!("expected a configuration error"),
    }
    let mut config = weather_config();
    config.commands[0].method = "PUT".to_string();
    let p = DynamicProvider::from_config(config).unwrap();
    assert!(matches!(
        p.begin_search("weather Paris", &env(Some("k"))),
        SearchStep::Answer(Err(ProviderError::Config(_)))
    ));
}

#[test]
fn invalid_body_is_a_parsing_error() {
    let mut config = weather_config();
    config.commands[1].body = Some("{\"city\": {{query}}}".to_string());
    let p = DynamicProvider::from_config(config).unwrap();
    assert!(matches!(
        p.begin_search("forecast Oslo", &env(Some("k"))),
        SearchStep::Answer(Err(ProviderError::Parsing(_)))
    ));
}

#[test]
fn responses_become_results_or_errors() {
    let mut p = provider();
    let request = match p.begin_search("weather Paris", &env(Some("k"))) {
        SearchStep::Request(r) => r,
        _ => panic!("expected a request"),
    };
    let ok = p
        .finish_search(
            "weather Paris",
            &request,
            Ok(HttpResponse { status: 200, body: "{\"main\":{\"temp\":21}}".to_string() }),
        )
        .unwrap();
    assert_eq!(ok.len(), 1);
    assert_eq!(ok[0].score, 100);
    assert_eq!(ok[0].result.description, "21 degrees");
    assert_eq!(ok[0].result.title, "Weather: weather Paris");
    assert!(matches!(ok[0].result.data, ActionData::Text(ref t) if t == "21 degrees"));
    assert!(matches!(ok[0].result.action, ActionType::Custom { ref action_id } if action_id == "current"));
    assert_eq!(ok[0].result.metadata.icon, Some("☁️".to_string()));
    let not_found = p.finish_search("q", &request, Ok(HttpResponse { status: 404, body: String::new() }));
    assert!(matches!(not_found, Err(ProviderError::Api { status: 404, .. })));
    assert!(!p.auth_failed());
    let bad_json = p.finish_search("q", &request, Ok(HttpResponse { status: 200, body: "not json".to_string() }));
    assert!(matches!(bad_json, Err(ProviderError::Parsing(_))));
    let down = p.finish_search("q", &request, Err("connection refused".to_string()));
    assert!(matches!(down, Err(ProviderError::Network(ref m)) if m == "connection refused"));
}

#[test]
fn templates_fill_placeholders() {
    let e = env(Some("KEY"));
    assert_eq!(
        render_template("{{query}}/{{location}}/{{date}}/{{datetime}}/{{api_key}}", "x", &e),
        "x/Orlando,FL,US/2024-05-01/2024-05-01T10:00:00+00:00/KEY"
    );
    assert_eq!(render_template("{{query|location}}", "", &e), "Orlando,FL,US");
    assert_eq!(render_template("{{api_key}}", "q", &env(None)), "{{api_key}}");
}

#[test]
fn failing_template_is_a_parsing_error() {
    let mut config = weather_config();
    config.commands[0].response_template = "{{#if main}}unclosed".to_string();
    let mut p = DynamicProvider::from_config(config).unwrap();
    let request = match p.begin_search("weather Paris", &env(Some("k"))) {
        SearchStep::Request(r) => r,
        _ => panic!("expected a request"),
    };
    let r = p.finish_search("weather Paris", &request, Ok(HttpResponse { status: 200, body: "{\"main\":{}}".to_string() }));
    assert!(matches!(r, Err(ProviderError::Parsing(_))));
}
