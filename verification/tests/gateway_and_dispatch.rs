use llm_tui::ai::{build_generation_request, resolve_api_key, resolve_base_url, title_prompt};
use llm_tui::ai_backend::AIBackend;
use llm_tui::chat_structs::{Message, Role};
use llm_tui::dispatch::{
    outcome_to_text, DispatchState, GenErrorKind, GenerationError, GenerationOutcome,
};
use llm_tui::ai_backend::parse_temperature_milli;
use llm_tui::text::{parse_usize, trim_string};

#[test]
fn request_has_preamble_first_and_prompt_last() {
    let history = vec![
        Message { role: Role::User, content: "a".to_string() },
        Message { role: Role::Assistant, content: "b".to_string() },
    ];
    let req = build_generation_request(&history, &"c".to_string());
    assert_eq!(req.len(), 4);
    assert!(matches!(req[0].role, Role::User));
    assert_eq!(req[0].content, "You are a friendly chatbot.");
    assert_eq!(req[1].content, "a");
    assert_eq!(req[2].content, "b");
    assert!(matches!(req[3].role, Role::User));
    assert_eq!(req[3].content, "c");
}

#[test]
fn title_prompt_is_the_fixed_instruction() {
    assert!(title_prompt().starts_with("Given our past conversation"));
}

#[test]
fn credential_resolution_prefers_the_override() {
    let key = resolve_api_key(&Some("mine".to_string()), Some("env".to_string()));
    assert_eq!(key, "mine");
    let key = resolve_api_key(&None, Some("env".to_string()));
    assert_eq!(key, "env");
    let key = resolve_api_key(&None, None);
    assert_eq!(key, "");
}

#[test]
fn base_url_applies_only_to_the_local_backend() {
    assert_eq!(resolve_base_url(AIBackend::OpenAI, false, None), None);
    assert_eq!(resolve_base_url(AIBackend::Ollama, true, None), None);
    assert_eq!(
        resolve_base_url(AIBackend::Ollama, false, None).as_deref(),
        Some("http://127.0.0.1:11434")
    );
    assert_eq!(
        resolve_base_url(AIBackend::Ollama, false, Some("http://host:1".to_string())).as_deref(),
        Some("http://host:1")
    );
}

#[test]
fn dispatch_moves_idle_pending_then_back_to_idle() {
    let mut d = DispatchState::Idle;
    d.submit();
    assert_eq!(d, DispatchState::Pending);
    d.resolve(true);
    assert_eq!(d, DispatchState::Delivered);
    d.acknowledge();
    assert_eq!(d, DispatchState::Idle);
    d.submit();
    d.resolve(false);
    assert_eq!(d, DispatchState::Failed);
    d.acknowledge();
    assert_eq!(d, DispatchState::Idle);
}

#[test]
fn outcome_text_tags_failures() {
    let t = outcome_to_text(GenerationOutcome::Delivered("fine".to_string()));
    assert_eq!(t, "fine");
    let t = outcome_to_text(GenerationOutcome::Failed(GenerationError {
        kind: GenErrorKind::Auth,
        message: "bad key".to_string(),
    }));
    assert_eq!(t, "AI Error: bad key");
}

#[test]
fn trimming_removes_surrounding_whitespace_only() {
    assert_eq!(trim_string(&"  a b \t\n".to_string()), "a b");
    assert_eq!(trim_string(&"".to_string()), "");
    assert_eq!(trim_string(&" \t ".to_string()), "");
    assert_eq!(trim_string(&"x".to_string()), "x");
}

#[test]
fn parse_usize_accepts_only_digits_that_fit() {
    assert_eq!(parse_usize(&"0".to_string()), Some(0));
    assert_eq!(parse_usize(&"1200".to_string()), Some(1200));
    assert_eq!(parse_usize(&"".to_string()), None);
    assert_eq!(parse_usize(&"12a".to_string()), None);
    assert_eq!(parse_usize(&"-3".to_string()), None);
    assert_eq!(parse_usize(&"99999999999999999999999999".to_string()), None);
}

#[test]
fn temperature_parse_accepts_plain_and_fractional_decimals() {
    assert_eq!(parse_temperature_milli(&"0.7".to_string()), Some(700));
    assert_eq!(parse_temperature_milli(&"1.5".to_string()), Some(1500));
    assert_eq!(parse_temperature_milli(&"2".to_string()), Some(2000));
    assert_eq!(parse_temperature_milli(&"0.125".to_string()), Some(125));
    assert_eq!(parse_temperature_milli(&"1.".to_string()), None);
    assert_eq!(parse_temperature_milli(&".5".to_string()), None);
    assert_eq!(parse_temperature_milli(&"1.2345".to_string()), None);
    assert_eq!(parse_temperature_milli(&"abc".to_string()), None);
}
