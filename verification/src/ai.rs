//! Building generation requests: the fixed system preamble, the prior
//! turns, and the new prompt as the final user turn, together with the
//! credential-resolution rules.
//!
//! The network call itself is an outside concern: the driver takes the
//! request built here, performs the call, and hands the outcome back as a
//! plain value.

use crate::ai_backend::AIBackend;
use crate::chat_structs::{copy_message, Message, MessageView, Role};
use vstd::prelude::*;

verus! {

/// The fixed system preamble sent ahead of every conversation.
pub open spec fn system_preamble() -> Seq<char> {
    "You are a friendly chatbot."@
}

/// The fixed instruction used to ask the backend for a short conversation
/// title.
pub open spec fn title_instruction() -> Seq<char> {
    "Given our past conversation, come up with an appropriate short title / topic for it. Just give the title, nothing else."@
}

/// The fixed instruction used to ask the backend for a short conversation
/// title.
pub fn title_prompt() -> (r: String)
    ensures
        r@ == title_instruction(),
{
    "Given our past conversation, come up with an appropriate short title / topic for it. Just give the title, nothing else.".to_owned()
}

/// The turn sequence sent to the backend for a prompt: the fixed preamble,
/// the prior history in order, then the prompt as the final user turn.
pub open spec fn request_turns(history: Seq<MessageView>, prompt: Seq<char>) -> Seq<MessageView> {
    seq![MessageView { role: Role::User, content: system_preamble() }] + history + seq![
        MessageView { role: Role::User, content: prompt },
    ]
}

/// Builds the turn sequence for one generation call.
pub fn build_generation_request(history: &Vec<Message>, prompt: &String) -> (r: Vec<Message>)
    ensures
        r.deep_view() == request_turns(history.deep_view(), prompt@),
{
    let mut r: Vec<Message> = Vec::new();
    r.push(Message { role: Role::User, content: "You are a friendly chatbot.".to_owned() });
    let mut i: usize = 0;
    while i < history.len()
        invariant
            i <= history@.len(),
            r.deep_view() =~= seq![
                MessageView { role: Role::User, content: system_preamble() },
            ] + history.deep_view().subrange(0, i as int),
        decreases history@.len() - i,
    {
        let ghost pre_r = r.deep_view();
        let cm = copy_message(&history[i]);
        proof {
            assert(cm == history@[i as int]);
        }
        r.push(cm);
        i = i + 1;
        proof {
            assert(r.deep_view() =~= pre_r.push(history.deep_view()[i - 1]));
            assert(pre_r.push(history.deep_view()[i - 1]) =~= seq![
                MessageView { role: Role::User, content: system_preamble() },
            ] + history.deep_view().subrange(0, i as int));
        }
    }
    r.push(Message { role: Role::User, content: prompt.clone() });
    proof {
        assert(history.deep_view().subrange(0, history.deep_view().len() as int)
            =~= history.deep_view());
        assert(r.deep_view() =~= request_turns(history.deep_view(), prompt@));
    }
    r
}

/// The credential actually used for a call: the explicit override from the
/// settings when one is set, else whatever the environment supplied for the
/// selected backend, else the empty string.
pub fn resolve_api_key(override_key: &Option<String>, env_value: Option<String>) -> (r: String)
    ensures
        match override_key {
            Some(k) => r@ == k@,
            None => match env_value {
                Some(v) => r@ == v@,
                None => r@ == Seq::<char>::empty(),
            },
        },
{
    match override_key {
        Some(k) => k.clone(),
        None => match env_value {
            Some(v) => v,
            None => String::new(),
        },
    }
}

/// The base URL for a call: only the local backend uses one, taking the
/// environment's value when set and a fixed local address otherwise.  A
/// configured key override disables it, as the override then carries the
/// whole connection choice.
pub fn resolve_base_url(
    backend: AIBackend,
    has_override: bool,
    env_url: Option<String>,
) -> (r: Option<String>)
    ensures
        match r {
            Some(u) => !has_override && backend is Ollama && (match env_url {
                Some(e) => u@ == e@,
                None => u@ == "http://127.0.0.1:11434"@,
            }),
            None => has_override || !(backend is Ollama),
        },
{
    if has_override {
        return None;
    }
    match backend {
        AIBackend::Ollama => match env_url {
            Some(e) => Some(e),
            None => Some("http://127.0.0.1:11434".to_owned()),
        },
        _ => None,
    }
}

} // verus!
