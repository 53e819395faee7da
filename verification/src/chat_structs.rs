//! The conversation data model: message roles and messages.
//!
//! Messages are immutable once appended; a conversation is an ordered,
//! append-only sequence of them.

use vstd::prelude::*;

verus! {

/// Descriptor of an assistant, kept for callers that want to record which
/// model produced a reply.
#[derive(Debug, Clone)]
pub struct Assistant {
    pub model: String,
}

/// Who produced a message.
#[derive(Debug, Clone, Copy, PartialEq, Eq, Structural)]
pub enum Role {
    User,
    Assistant,
}

/// One conversation turn: a role and its text.
#[derive(Debug, Clone)]
pub struct Message {
    pub role: Role,
    pub content: String,
}

/// The mathematical value of a [`Message`].
#[verifier::ext_equal]
pub struct MessageView {
    pub role: Role,
    pub content: Seq<char>,
}

impl View for Message {
    type V = MessageView;

    open spec fn view(&self) -> MessageView {
        MessageView { role: self.role, content: self.content@ }
    }
}

impl DeepView for Message {
    type V = MessageView;

    open spec fn deep_view(&self) -> MessageView {
        self.view()
    }
}

impl PartialEq for Message {
    fn eq(&self, other: &Message) -> (r: bool) {
        self.role == other.role && self.content == other.content
    }
}

impl vstd::std_specs::cmp::PartialEqSpecImpl for Message {
    open spec fn obeys_eq_spec() -> bool {
        true
    }

    open spec fn eq_spec(&self, other: &Message) -> bool {
        self@ == other@
    }
}

/// A user message with the given text.
pub fn user_message(content: String) -> (m: Message)
    ensures
        m@ == (MessageView { role: Role::User, content: content@ }),
{
    Message { role: Role::User, content }
}

/// An assistant message with the given text.
pub fn assistant_message(content: String) -> (m: Message)
    ensures
        m@ == (MessageView { role: Role::Assistant, content: content@ }),
{
    Message { role: Role::Assistant, content }
}

/// An exact copy of a message.
pub fn copy_message(m: &Message) -> (r: Message)
    ensures
        r == *m,
{
    Message { role: m.role, content: m.content.clone() }
}

/// An exact copy of a message sequence.
pub fn copy_messages(v: &Vec<Message>) -> (r: Vec<Message>)
    ensures
        r@ == v@,
{
    let mut r: Vec<Message> = Vec::new();
    let mut i: usize = 0;
    while i < v.len()
        invariant
            i <= v@.len(),
            r@ == v@.subrange(0, i as int),
        decreases v@.len() - i,
    {
        r.push(copy_message(&v[i]));
        i = i + 1;
        proof {
            assert(r@ =~= v@.subrange(0, i as int));
        }
    }
    proof {
        assert(r@ =~= v@);
    }
    r
}

} // verus!
