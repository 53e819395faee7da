use llm_tui::ai_backend::{AIBackend, AISettings};
use llm_tui::chat_branch::ChatBranch;
use llm_tui::chat_structs::{Message, Role};
use llm_tui::codec::{
    decode_branches, decode_settings, encode_branches, encode_settings, LoadError,
};

fn sample_branches() -> Vec<ChatBranch> {
    vec![
        ChatBranch {
            id: 0,
            name: "Default Chat".to_string(),
            messages: vec![
                Message { role: Role::User, content: "say \"hi\" \\ now\nplease".to_string() },
                Message { role: Role::Assistant, content: "hi".to_string() },
            ],
        },
        ChatBranch { id: 3, name: "Trip Planning".to_string(), messages: Vec::new() },
    ]
}

#[test]
fn branches_round_trip_through_the_store_text() {
    let branches = sample_branches();
    let text = encode_branches(&branches);
    let reloaded = decode_branches(&text).unwrap();
    assert_eq!(reloaded, branches);
}

#[test]
fn empty_branch_list_round_trips() {
    let text = encode_branches(&Vec::new());
    assert_eq!(text, "[]");
    let reloaded = decode_branches(&text).unwrap();
    assert_eq!(reloaded.len(), 0);
}

#[test]
fn store_text_has_the_documented_shape() {
    let branches = vec![ChatBranch {
        id: 0,
        name: "Default Chat".to_string(),
        messages: vec![Message { role: Role::User, content: "hi".to_string() }],
    }];
    let text = encode_branches(&branches);
    assert_eq!(
        text,
        "[{\"id\":0,\"name\":\"Default Chat\",\"messages\":[{\"role\":\"User\",\"content\":\"hi\"}]}]"
    );
}

#[test]
fn corrupt_store_text_is_a_fatal_parse_error() {
    assert_eq!(decode_branches("nonsense"), Err(LoadError::Parse));
    assert_eq!(decode_branches(""), Err(LoadError::Parse));
    assert_eq!(decode_branches("[}"), Err(LoadError::Parse));
    // trailing junk after a well-formed record is rejected too
    assert_eq!(decode_branches("[]x"), Err(LoadError::Parse));
    // an unterminated string is rejected
    assert_eq!(
        decode_branches("[{\"id\":0,\"name\":\"oops,\"messages\":[]}]"),
        Err(LoadError::Parse)
    );
}

#[test]
fn duplicate_ids_are_rejected_on_load() {
    let twins = vec![
        ChatBranch { id: 5, name: "a".to_string(), messages: Vec::new() },
        ChatBranch { id: 5, name: "b".to_string(), messages: Vec::new() },
    ];
    let text = encode_branches(&twins);
    assert_eq!(decode_branches(&text), Err(LoadError::DuplicateIds));
}

#[test]
fn settings_round_trip_with_key_override() {
    let settings = AISettings {
        backend: AIBackend::Anthropic,
        model: "some-model".to_string(),
        api_key: Some("example-key-override".to_string()),
        temperature_milli: 1250,
        max_tokens: 4096,
    };
    let text = encode_settings(&settings);
    let reloaded = decode_settings(&text).unwrap();
    assert!(matches!(reloaded.backend, AIBackend::Anthropic));
    assert_eq!(reloaded.model, settings.model);
    assert_eq!(reloaded.api_key, settings.api_key);
    assert_eq!(reloaded.temperature_milli, 1250);
    assert_eq!(reloaded.max_tokens, 4096);
}

#[test]
fn settings_round_trip_without_key_override() {
    let settings = AISettings {
        backend: AIBackend::Ollama,
        model: "llama3".to_string(),
        api_key: None,
        temperature_milli: 700,
        max_tokens: 2048,
    };
    let text = encode_settings(&settings);
    assert_eq!(
        text,
        "{\"backend\":\"Ollama\",\"model\":\"llama3\",\"api_key\":null,\"temperature\":0.700,\"max_tokens\":2048}"
    );
    let reloaded = decode_settings(&text).unwrap();
    assert!(matches!(reloaded.backend, AIBackend::Ollama));
    assert_eq!(reloaded.api_key, None);
    assert_eq!(reloaded.temperature_milli, 700);
}

#[test]
fn corrupt_settings_text_is_a_fatal_parse_error() {
    assert!(matches!(decode_settings("{}"), Err(LoadError::Parse)));
    assert!(matches!(decode_settings(""), Err(LoadError::Parse)));
    assert!(matches!(
        decode_settings("{\"backend\":\"Nonesuch\",\"model\":\"m\",\"api_key\":null,\"temperature\":0.700,\"max_tokens\":10}"),
        Err(LoadError::Parse)
    ));
}
