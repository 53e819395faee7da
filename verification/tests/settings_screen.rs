use llm_tui::ai_backend::{default_settings, AIBackend};
use llm_tui::app::{CurrentScreen, KeyInput};
use llm_tui::dispatch::Effect;
use llm_tui::main_menu::MainMenu;

fn open_settings() -> CurrentScreen {
    let mut s = CurrentScreen::MainMenu(MainMenu { selected: 1 });
    let e = s.on_key(KeyInput::Enter);
    assert!(matches!(e, Effect::LoadSettings));
    s.enter_settings(default_settings());
    s
}

fn config(s: &CurrentScreen) -> &llm_tui::settings::Config {
    match s {
        CurrentScreen::Settings(c) => c,
        _ => panic!("not on the configuration screen"),
    }
}

#[test]
fn defaults_are_the_single_fallback() {
    let d = default_settings();
    assert!(matches!(d.backend, AIBackend::OpenAI));
    assert_eq!(d.model, "gpt-3.5-turbo");
    assert!(d.api_key.is_none());
    assert_eq!(d.temperature_milli, 700);
    assert_eq!(d.max_tokens, 2048);
}

#[test]
fn focus_moves_cyclically_over_five_fields() {
    let mut s = open_settings();
    assert_eq!(config(&s).selected_field, 0);
    s.on_key(KeyInput::Up);
    assert_eq!(config(&s).selected_field, 4);
    s.on_key(KeyInput::Down);
    assert_eq!(config(&s).selected_field, 0);
    for expected in [1, 2, 3, 4, 0] {
        s.on_key(KeyInput::Down);
        assert_eq!(config(&s).selected_field, expected);
    }
}

#[test]
fn backend_field_cycles_with_left_and_right() {
    let mut s = open_settings();
    let e = s.on_key(KeyInput::Right);
    assert!(matches!(e, Effect::PersistSettings));
    assert!(matches!(config(&s).ai_settings.backend, AIBackend::Anthropic));
    let e = s.on_key(KeyInput::Left);
    assert!(matches!(e, Effect::PersistSettings));
    assert!(matches!(config(&s).ai_settings.backend, AIBackend::OpenAI));
    let e = s.on_key(KeyInput::Left);
    assert!(matches!(e, Effect::PersistSettings));
    assert!(matches!(config(&s).ai_settings.backend, AIBackend::Phind));
}

#[test]
fn max_tokens_commits_every_prefix_that_parses() {
    let mut s = open_settings();
    for _ in 0..4 {
        s.on_key(KeyInput::Down);
    }
    assert_eq!(config(&s).selected_field, 4);
    let mut expected = [1usize, 12, 120, 1200].into_iter();
    for c in ['1', '2', '0', '0'] {
        let e = s.on_key(KeyInput::Char(c));
        assert!(matches!(e, Effect::PersistSettings));
        assert_eq!(config(&s).ai_settings.max_tokens, expected.next().unwrap());
    }
    // a non-numeric character leaves the committed value unchanged
    let e = s.on_key(KeyInput::Char('x'));
    assert!(matches!(e, Effect::PersistSettings));
    assert_eq!(config(&s).ai_settings.max_tokens, 1200);
    assert_eq!(config(&s).tokens_input, "1200x");
}

#[test]
fn temperature_draft_commits_only_when_it_parses() {
    let mut s = open_settings();
    for _ in 0..3 {
        s.on_key(KeyInput::Down);
    }
    assert_eq!(config(&s).selected_field, 3);
    s.on_key(KeyInput::Char('1'));
    assert_eq!(config(&s).ai_settings.temperature_milli, 1000);
    // "1." does not parse: the draft keeps it, the committed value stays
    s.on_key(KeyInput::Char('.'));
    assert_eq!(config(&s).temp_input, "1.");
    assert_eq!(config(&s).ai_settings.temperature_milli, 1000);
    s.on_key(KeyInput::Char('5'));
    assert_eq!(config(&s).temp_input, "1.5");
    assert_eq!(config(&s).ai_settings.temperature_milli, 1500);
}

#[test]
fn model_and_api_key_edit_directly() {
    let mut s = open_settings();
    s.on_key(KeyInput::Down);
    assert_eq!(config(&s).selected_field, 1);
    s.on_key(KeyInput::Char('x'));
    assert_eq!(config(&s).ai_settings.model, "gpt-3.5-turbox");
    s.on_key(KeyInput::Backspace);
    assert_eq!(config(&s).ai_settings.model, "gpt-3.5-turbo");
    s.on_key(KeyInput::Down);
    assert_eq!(config(&s).selected_field, 2);
    let e = s.on_key(KeyInput::Char('k'));
    assert!(matches!(e, Effect::PersistSettings));
    assert_eq!(config(&s).ai_settings.api_key.as_deref(), Some("k"));
}

#[test]
fn escape_returns_to_the_menu() {
    let mut s = open_settings();
    let e = s.on_key(KeyInput::Esc);
    assert!(matches!(e, Effect::Nothing));
    match &s {
        CurrentScreen::MainMenu(m) => assert_eq!(m.selected, 0),
        _ => panic!("expected the menu"),
    }
}
