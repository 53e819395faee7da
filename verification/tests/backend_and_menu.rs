use llm_tui::ai_backend::AIBackend;
use llm_tui::app::{CurrentScreen, KeyInput};
use llm_tui::dispatch::Effect;
use llm_tui::main_menu::MainMenu;

const ALL_BACKENDS: [AIBackend; 7] = [
    AIBackend::OpenAI,
    AIBackend::Anthropic,
    AIBackend::Google,
    AIBackend::Groq,
    AIBackend::Ollama,
    AIBackend::XAi,
    AIBackend::Phind,
];

#[test]
fn backend_cycle_is_bijective_for_every_backend() {
    for b in ALL_BACKENDS {
        assert_eq!(b.next_backend().prev_backend(), b);
        assert_eq!(b.prev_backend().next_backend(), b);
    }
}

#[test]
fn backend_cycle_order_is_fixed() {
    assert_eq!(AIBackend::OpenAI.next_backend(), AIBackend::Anthropic);
    assert_eq!(AIBackend::Anthropic.next_backend(), AIBackend::Google);
    assert_eq!(AIBackend::Google.next_backend(), AIBackend::Groq);
    assert_eq!(AIBackend::Groq.next_backend(), AIBackend::Ollama);
    assert_eq!(AIBackend::Ollama.next_backend(), AIBackend::XAi);
    assert_eq!(AIBackend::XAi.next_backend(), AIBackend::Phind);
    assert_eq!(AIBackend::Phind.next_backend(), AIBackend::OpenAI);
}

#[test]
fn backend_env_var_names() {
    assert_eq!(AIBackend::OpenAI.to_env_var(), "OPENAI_API_KEY");
    assert_eq!(AIBackend::Anthropic.to_env_var(), "ANTHROPIC_API_KEY");
    assert_eq!(AIBackend::Google.to_env_var(), "GOOGLE_API_KEY");
    assert_eq!(AIBackend::Groq.to_env_var(), "GROQ_API_KEY");
    assert_eq!(AIBackend::Ollama.to_env_var(), "OLLAMA_URL");
    assert_eq!(AIBackend::XAi.to_env_var(), "XAI_API_KEY");
    assert_eq!(AIBackend::Phind.to_env_var(), "");
}

fn menu_selected(s: &CurrentScreen) -> usize {
    match s {
        CurrentScreen::MainMenu(m) => m.selected,
        _ => panic!("not on the menu"),
    }
}

#[test]
fn menu_selection_cycles_modulo_in_both_directions() {
    let mut s = CurrentScreen::MainMenu(MainMenu { selected: 0 });
    // moving "previous" from the first entry lands on the last
    let e = s.on_key(KeyInput::Up);
    assert!(matches!(e, Effect::Nothing));
    assert_eq!(menu_selected(&s), 2);
    let e = s.on_key(KeyInput::Down);
    assert!(matches!(e, Effect::Nothing));
    assert_eq!(menu_selected(&s), 0);
    s.on_key(KeyInput::Char('j'));
    assert_eq!(menu_selected(&s), 1);
    s.on_key(KeyInput::Char('j'));
    assert_eq!(menu_selected(&s), 2);
    s.on_key(KeyInput::Char('j'));
    assert_eq!(menu_selected(&s), 0);
    s.on_key(KeyInput::Char('k'));
    assert_eq!(menu_selected(&s), 2);
}

#[test]
fn menu_confirm_maps_entries_to_actions() {
    let mut s = CurrentScreen::MainMenu(MainMenu { selected: 0 });
    assert!(matches!(s.on_key(KeyInput::Enter), Effect::LoadChat));
    let mut s = CurrentScreen::MainMenu(MainMenu { selected: 1 });
    assert!(matches!(s.on_key(KeyInput::Enter), Effect::LoadSettings));
    let mut s = CurrentScreen::MainMenu(MainMenu { selected: 2 });
    assert!(matches!(s.on_key(KeyInput::Enter), Effect::Nothing));
    match &s {
        CurrentScreen::Exit(x) => assert_eq!(x.data, "Bye!"),
        _ => panic!("expected the terminated screen"),
    }
}

#[test]
fn terminated_screen_is_a_sink() {
    let mut s = CurrentScreen::MainMenu(MainMenu { selected: 2 });
    s.on_key(KeyInput::Enter);
    for key in [KeyInput::Enter, KeyInput::Esc, KeyInput::Char('q'), KeyInput::Up] {
        let e = s.on_key(key);
        assert!(matches!(e, Effect::Nothing));
        assert!(matches!(s, CurrentScreen::Exit(_)));
    }
}
