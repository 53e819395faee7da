use llm_tui::app::{CurrentScreen, KeyInput};
use llm_tui::chat_branch::ChatBranch;
use llm_tui::chat_structs::{Message, Role};
use llm_tui::codec::{decode_branches, encode_branches};
use llm_tui::dispatch::{Effect, GenErrorKind, GenerationError, GenerationOutcome};
use llm_tui::main_menu::MainMenu;

fn open_chat(loaded: Vec<ChatBranch>) -> CurrentScreen {
    let mut s = CurrentScreen::MainMenu(MainMenu { selected: 0 });
    let e = s.on_key(KeyInput::Enter);
    assert!(matches!(e, Effect::LoadChat));
    s.enter_chat(loaded);
    s
}

fn chat(s: &CurrentScreen) -> &llm_tui::chat_view::ChatView {
    match s {
        CurrentScreen::ChatView(c) => c,
        _ => panic!("not on the conversation screen"),
    }
}

fn chat_mut(s: &mut CurrentScreen) -> &mut llm_tui::chat_view::ChatView {
    match s {
        CurrentScreen::ChatView(c) => c,
        _ => panic!("not on the conversation screen"),
    }
}

fn type_text(s: &mut CurrentScreen, text: &str) {
    for c in text.chars() {
        s.on_key(KeyInput::Char(c));
    }
}

#[test]
fn empty_store_bootstraps_one_default_branch() {
    let s = open_chat(Vec::new());
    let c = chat(&s);
    assert_eq!(c.branches.len(), 1);
    assert_eq!(c.branches[0].id, 0);
    assert_eq!(c.branches[0].name, "Default Chat");
    assert_eq!(c.branches[0].messages.len(), 0);
    assert_eq!(c.selected_branch, 0);
    assert_eq!(c.messages.len(), 0);
    assert!(!c.pending_generation);
}

#[test]
fn submission_appends_user_turn_and_sets_pending() {
    let mut s = open_chat(Vec::new());
    type_text(&mut s, "Hello");
    let e = s.on_key(KeyInput::Enter);
    match e {
        Effect::SubmitGeneration { history, prompt } => {
            assert_eq!(prompt, "Hello");
            assert_eq!(history.len(), 0);
        },
        _ => panic!("expected a generation submission"),
    }
    let c = chat(&s);
    assert!(c.pending_generation);
    assert_eq!(c.input_buffer, "");
    assert_eq!(c.messages.len(), 1);
    assert!(matches!(c.messages[0].role, Role::User));
    assert_eq!(c.messages[0].content, "Hello");
    // the branch itself is only written back when the outcome arrives
    assert_eq!(c.branches[0].messages.len(), 0);
}

#[test]
fn failed_generation_lands_as_tagged_assistant_text_and_is_persisted() {
    let mut s = open_chat(Vec::new());
    type_text(&mut s, "Hello");
    s.on_key(KeyInput::Enter);
    let outcome = GenerationOutcome::Failed(GenerationError {
        kind: GenErrorKind::Network,
        message: "connection refused".to_string(),
    });
    let e = chat_mut(&mut s).apply_generation_result(outcome);
    // the bootstrap name is still in place, so a title is also requested
    assert!(matches!(e, Effect::PersistBranchesAndTitle));
    let c = chat(&s);
    assert!(!c.pending_generation);
    assert_eq!(c.messages.len(), 2);
    assert!(matches!(c.messages[0].role, Role::User));
    assert_eq!(c.messages[0].content, "Hello");
    assert!(matches!(c.messages[1].role, Role::Assistant));
    assert_eq!(c.messages[1].content, "AI Error: connection refused");
    // the branch is persisted in exactly that state
    let text = encode_branches(&c.branches);
    let reloaded = decode_branches(&text).unwrap();
    assert_eq!(reloaded, c.branches);
    assert_eq!(reloaded[0].messages.len(), 2);
    assert_eq!(reloaded[0].messages[1].content, "AI Error: connection refused");
}

#[test]
fn exchange_appends_exactly_two_messages_to_the_selected_branch() {
    let other = ChatBranch {
        id: 7,
        name: "Other".to_string(),
        messages: vec![Message { role: Role::User, content: "old".to_string() }],
    };
    let main = ChatBranch { id: 0, name: "Main".to_string(), messages: Vec::new() };
    let mut s = open_chat(vec![main, other]);
    type_text(&mut s, "  question  ");
    let e = s.on_key(KeyInput::Enter);
    match e {
        Effect::SubmitGeneration { prompt, .. } => assert_eq!(prompt, "question"),
        _ => panic!("expected a generation submission"),
    }
    let e = chat_mut(&mut s).apply_generation_result(GenerationOutcome::Delivered(
        "answer".to_string(),
    ));
    assert!(matches!(e, Effect::PersistBranches));
    let c = chat(&s);
    assert_eq!(c.branches[0].messages.len(), 2);
    assert!(matches!(c.branches[0].messages[0].role, Role::User));
    assert_eq!(c.branches[0].messages[0].content, "question");
    assert!(matches!(c.branches[0].messages[1].role, Role::Assistant));
    assert_eq!(c.branches[0].messages[1].content, "answer");
    // no other branch's messages change
    assert_eq!(c.branches[1].messages.len(), 1);
    assert_eq!(c.branches[1].messages[0].content, "old");
}

#[test]
fn second_submission_while_pending_is_ignored() {
    let mut s = open_chat(Vec::new());
    type_text(&mut s, "first");
    assert!(matches!(s.on_key(KeyInput::Enter), Effect::SubmitGeneration { .. }));
    type_text(&mut s, "second");
    let e = s.on_key(KeyInput::Enter);
    assert!(matches!(e, Effect::Nothing));
    let c = chat(&s);
    assert_eq!(c.messages.len(), 1);
    assert!(c.pending_generation);
    // escape is also refused while a generation is pending
    let mut s2 = s;
    assert!(matches!(s2.on_key(KeyInput::Esc), Effect::Nothing));
    assert!(matches!(s2, CurrentScreen::ChatView(_)));
}

#[test]
fn empty_or_blank_input_is_not_submitted() {
    let mut s = open_chat(Vec::new());
    assert!(matches!(s.on_key(KeyInput::Enter), Effect::Nothing));
    type_text(&mut s, "   ");
    assert!(matches!(s.on_key(KeyInput::Enter), Effect::Nothing));
    assert!(!chat(&s).pending_generation);
}

#[test]
fn renaming_the_selected_branch_persists_immediately() {
    let mut s = open_chat(Vec::new());
    s.on_key(KeyInput::Tab);
    assert!(chat(&s).show_sidebar);
    s.on_key(KeyInput::Char('r'));
    assert_eq!(chat(&s).sidebar_input_buffer, "Default Chat");
    for _ in 0.."Default Chat".len() {
        s.on_key(KeyInput::Backspace);
    }
    type_text(&mut s, "Trip Planning");
    let e = s.on_key(KeyInput::Enter);
    assert!(matches!(e, Effect::PersistBranches));
    let c = chat(&s);
    assert_eq!(c.branches[0].name, "Trip Planning");
    // reloading the persisted store shows the new name
    let text = encode_branches(&c.branches);
    let reloaded = decode_branches(&text).unwrap();
    assert_eq!(reloaded[0].name, "Trip Planning");
}

#[test]
fn new_branch_gets_a_fresh_id_and_empty_transcript() {
    let mut s = open_chat(Vec::new());
    s.on_key(KeyInput::Tab);
    s.on_key(KeyInput::Char('n'));
    assert_eq!(chat(&s).sidebar_input_buffer, "Default Chat");
    type_text(&mut s, " Two");
    let e = s.on_key(KeyInput::Enter);
    assert!(matches!(e, Effect::PersistBranches));
    let c = chat(&s);
    assert_eq!(c.branches.len(), 2);
    assert_eq!(c.branches[1].id, 1);
    assert_eq!(c.branches[1].name, "Default Chat Two");
    assert_eq!(c.selected_branch, 1);
    assert_eq!(c.messages.len(), 0);
}

#[test]
fn sidebar_selection_cycles_and_loads_the_branch() {
    let a = ChatBranch {
        id: 0,
        name: "A".to_string(),
        messages: vec![Message { role: Role::User, content: "in a".to_string() }],
    };
    let b = ChatBranch { id: 1, name: "B".to_string(), messages: Vec::new() };
    let mut s = open_chat(vec![a, b]);
    s.on_key(KeyInput::Tab);
    s.on_key(KeyInput::Char('j'));
    assert_eq!(chat(&s).selected_branch, 1);
    assert_eq!(chat(&s).messages.len(), 0);
    s.on_key(KeyInput::Char('j'));
    assert_eq!(chat(&s).selected_branch, 0);
    assert_eq!(chat(&s).messages.len(), 1);
    s.on_key(KeyInput::Char('k'));
    assert_eq!(chat(&s).selected_branch, 1);
    s.on_key(KeyInput::Enter);
    assert!(!chat(&s).show_sidebar);
}

#[test]
fn title_applies_only_while_the_name_is_still_default() {
    let mut s = open_chat(Vec::new());
    let e = chat_mut(&mut s).apply_title_result(0, "Snappy Title".to_string());
    assert!(matches!(e, Effect::PersistBranches));
    assert_eq!(chat(&s).branches[0].name, "Snappy Title");
    // a late or repeated title is dropped once the branch was named
    let e = chat_mut(&mut s).apply_title_result(0, "Other".to_string());
    assert!(matches!(e, Effect::Nothing));
    assert_eq!(chat(&s).branches[0].name, "Snappy Title");
    // a title for an unknown branch id is dropped as well
    let e = chat_mut(&mut s).apply_title_result(42, "Nope".to_string());
    assert!(matches!(e, Effect::Nothing));
}

#[test]
fn scroll_moves_by_a_fixed_step_clamped_at_zero() {
    let mut s = open_chat(Vec::new());
    s.on_key(KeyInput::Down);
    s.on_key(KeyInput::Down);
    assert_eq!(chat(&s).scroll, 10);
    s.on_key(KeyInput::Up);
    assert_eq!(chat(&s).scroll, 5);
    s.on_key(KeyInput::Up);
    assert_eq!(chat(&s).scroll, 0);
    s.on_key(KeyInput::Up);
    assert_eq!(chat(&s).scroll, 0);
}

#[test]
fn escape_returns_to_the_menu_when_idle() {
    let mut s = open_chat(Vec::new());
    let e = s.on_key(KeyInput::Esc);
    assert!(matches!(e, Effect::Nothing));
    assert!(matches!(s, CurrentScreen::MainMenu(_)));
}
