//! The conversation screen: the active transcript, the input line, and a
//! sidebar for selecting, creating and renaming branches.
//!
//! `messages` is the working copy of the selected branch's transcript.  It
//! diverges from the branch only while a generation is pending, and then by
//! exactly the submitted user turn; the divergence is reconciled when the
//! outcome is applied, before the branch selection can change again.

use crate::app::{CurrentScreen, KeyInput};
use crate::chat_branch::{
    bootstrap_branches, default_branch_name, id_in_use, ids_unique, next_branch_id, BranchView,
    ChatBranch,
};
use crate::chat_structs::{
    assistant_message, copy_messages, user_message, Message, MessageView, Role,
};
use crate::dispatch::{outcome_text, outcome_to_text, Effect, GenerationOutcome};
use crate::main_menu::MainMenu;
use crate::text::{string_pop, string_push, trim_of, trim_string};
use vstd::prelude::*;

verus! {

/// What the sidebar's text entry is being used for.
#[derive(Clone, Copy, Debug, PartialEq, Eq, Structural)]
pub enum SidebarInputMode {
    /// The user is naming a new branch.
    NewBranch,
    /// The user is renaming the selected branch.
    Renaming,
}

/// The conversation screen state.
pub struct ChatView {
    /// Working copy of the selected branch's transcript.
    pub messages: Vec<Message>,
    /// The prompt being typed.
    pub input_buffer: String,
    /// All persisted branches.
    pub branches: Vec<ChatBranch>,
    /// Index of the selected branch.
    pub selected_branch: usize,
    /// Whether the branch sidebar is visible.
    pub show_sidebar: bool,
    /// What the sidebar text entry is being used for, if anything.
    pub sidebar_input_mode: Option<SidebarInputMode>,
    /// The sidebar text entry.
    pub sidebar_input_buffer: String,
    /// How far the transcript is scrolled.
    pub scroll: usize,
    /// Whether a generation request is outstanding.
    pub pending_generation: bool,
}

/// The mathematical value of a [`ChatView`].
#[verifier::ext_equal]
pub struct ChatViewV {
    pub messages: Seq<MessageView>,
    pub input_buffer: Seq<char>,
    pub branches: Seq<BranchView>,
    pub selected_branch: int,
    pub show_sidebar: bool,
    pub sidebar_input_mode: Option<SidebarInputMode>,
    pub sidebar_input_buffer: Seq<char>,
    pub scroll: int,
    pub pending_generation: bool,
}

impl View for ChatView {
    type V = ChatViewV;

    open spec fn view(&self) -> ChatViewV {
        ChatViewV {
            messages: self.messages.deep_view(),
            input_buffer: self.input_buffer@,
            branches: self.branches.deep_view(),
            selected_branch: self.selected_branch as int,
            show_sidebar: self.show_sidebar,
            sidebar_input_mode: self.sidebar_input_mode,
            sidebar_input_buffer: self.sidebar_input_buffer@,
            scroll: self.scroll as int,
            pending_generation: self.pending_generation,
        }
    }
}

/// The persisted transcript of the selected branch.
pub open spec fn sel_messages(c: ChatViewV) -> Seq<MessageView> {
    c.branches[c.selected_branch].messages
}

/// While a generation is pending the working copy is the selected branch's
/// transcript plus exactly the submitted user turn.
pub open spec fn pending_shape(c: ChatViewV) -> bool {
    &&& c.messages.len() == sel_messages(c).len() + 1
    &&& c.messages.drop_last() == sel_messages(c)
    &&& c.messages.last().role == Role::User
}

/// Well-formedness of the conversation screen: at least one branch, a valid
/// selection, unique branch ids, the sidebar text entry only in a visible
/// sidebar, and the working copy reconciled with the selected branch except
/// for a pending submission.
pub open spec fn chat_wf_v(c: ChatViewV) -> bool {
    &&& c.branches.len() > 0
    &&& 0 <= c.selected_branch < c.branches.len()
    &&& ids_unique(c.branches)
    &&& (c.sidebar_input_mode is Some ==> c.show_sidebar)
    &&& (!c.pending_generation ==> c.messages == sel_messages(c))
    &&& (c.pending_generation ==> pending_shape(c))
}

impl ChatView {
    /// Well-formedness of the conversation screen.
    pub open spec fn wf(self) -> bool {
        chat_wf_v(self@)
    }
}

/// Whether `post` is the conversation screen with the given value.
pub open spec fn is_chat(post: CurrentScreen, v: ChatViewV) -> bool {
    post matches CurrentScreen::ChatView(c) && c@ == v
}

/// An id suitable for a newly created branch: not in use, and the smallest
/// such.
pub open spec fn fresh_id(bs: Seq<BranchView>, id: int) -> bool {
    &&& !id_in_use(bs, id)
    &&& forall|c: int| 0 <= c < id ==> id_in_use(bs, c)
}

/// How a key event acts on the sidebar while its text entry is active.
/// Characters and backspace edit the entry; escape cancels; confirm with a
/// non-empty trimmed entry creates a new branch (fresh id, selected, empty
/// transcript) or renames the selected branch, either followed by a
/// persist.  A new branch is not created while a generation is pending,
/// since creation moves the selection.
pub open spec fn sidebar_edit_step(
    pre: ChatViewV,
    post: ChatViewV,
    e: Effect,
    key: KeyInput,
    mode: SidebarInputMode,
) -> bool {
    let cleared = ChatViewV {
        sidebar_input_mode: None,
        sidebar_input_buffer: Seq::<char>::empty(),
        ..pre
    };
    match key {
        KeyInput::Enter => {
            let name = trim_of(pre.sidebar_input_buffer);
            if name.len() == 0 {
                post == cleared && e is Nothing
            } else {
                match mode {
                    SidebarInputMode::NewBranch => if pre.pending_generation || pre.branches.len()
                        >= usize::MAX {
                        post == cleared && e is Nothing
                    } else {
                        &&& fresh_id(pre.branches, post.branches.last().id)
                        &&& post == (ChatViewV {
                            branches: pre.branches.push(
                                BranchView {
                                    id: post.branches.last().id,
                                    name: name,
                                    messages: Seq::<MessageView>::empty(),
                                },
                            ),
                            selected_branch: pre.branches.len() as int,
                            messages: Seq::<MessageView>::empty(),
                            sidebar_input_mode: None,
                            sidebar_input_buffer: Seq::<char>::empty(),
                            ..pre
                        })
                        &&& e is PersistBranches
                    },
                    SidebarInputMode::Renaming => post == (ChatViewV {
                        branches: pre.branches.update(
                            pre.selected_branch,
                            BranchView { name: name, ..pre.branches[pre.selected_branch] },
                        ),
                        sidebar_input_mode: None,
                        sidebar_input_buffer: Seq::<char>::empty(),
                        ..pre
                    }) && e is PersistBranches,
                }
            }
        },
        KeyInput::Char(c) => post == (ChatViewV {
            sidebar_input_buffer: pre.sidebar_input_buffer.push(c),
            ..pre
        }) && e is Nothing,
        KeyInput::Backspace => post == (ChatViewV {
            sidebar_input_buffer: if pre.sidebar_input_buffer.len() > 0 {
                pre.sidebar_input_buffer.drop_last()
            } else {
                pre.sidebar_input_buffer
            },
            ..pre
        }) && e is Nothing,
        KeyInput::Esc => post == cleared && e is Nothing,
        _ => post == pre && e is Nothing,
    }
}

/// How a key event acts on the visible sidebar outside its text entry.
/// Up/down move the selection cyclically and load that branch's transcript
/// into the working copy; confirm hides the sidebar; `n` and `r` open the
/// text entry for creation and renaming.  While a generation is pending the
/// selection is frozen, so the pending turn cannot land on another branch.
pub open spec fn sidebar_select_step(
    pre: ChatViewV,
    post: ChatViewV,
    e: Effect,
    key: KeyInput,
) -> bool {
    match key {
        KeyInput::Char(c) => if c == 'j' || c == 'k' {
            if pre.pending_generation {
                post == pre && e is Nothing
            } else {
                let ns = if c == 'j' {
                    (pre.selected_branch + 1) % (pre.branches.len() as int)
                } else {
                    (pre.selected_branch + pre.branches.len() - 1) % (pre.branches.len() as int)
                };
                post == (ChatViewV {
                    selected_branch: ns,
                    messages: pre.branches[ns].messages,
                    ..pre
                }) && e is Nothing
            }
        } else if c == 'n' {
            if pre.pending_generation {
                post == pre && e is Nothing
            } else {
                post == (ChatViewV {
                    sidebar_input_mode: Some(SidebarInputMode::NewBranch),
                    sidebar_input_buffer: default_branch_name(),
                    ..pre
                }) && e is Nothing
            }
        } else if c == 'r' {
            post == (ChatViewV {
                sidebar_input_mode: Some(SidebarInputMode::Renaming),
                sidebar_input_buffer: pre.branches[pre.selected_branch].name,
                ..pre
            }) && e is Nothing
        } else {
            post == pre && e is Nothing
        },
        KeyInput::Enter => if pre.pending_generation {
            post == pre && e is Nothing
        } else {
            post == (ChatViewV { show_sidebar: false, ..pre }) && e is Nothing
        },
        KeyInput::Tab | KeyInput::Esc => post == (ChatViewV { show_sidebar: false, ..pre })
            && e is Nothing,
        _ => post == pre && e is Nothing,
    }
}

/// How a key event acts on the visible sidebar.
pub open spec fn sidebar_step(pre: ChatViewV, post: ChatViewV, e: Effect, key: KeyInput) -> bool {
    match pre.sidebar_input_mode {
        Some(mode) => sidebar_edit_step(pre, post, e, key, mode),
        None => sidebar_select_step(pre, post, e, key),
    }
}

/// How a key event acts on the conversation screen while the sidebar is
/// hidden.  Characters and backspace edit the prompt; scrolling moves by a
/// fixed step, clamped; confirm submits the trimmed prompt when it is
/// non-empty and no generation is pending: the user turn is appended to the
/// working copy at once, and the driver is asked to run the generation out
/// of line on the history that preceded it.  A second submission while one
/// is pending is ignored.  Escape returns to the menu, but not while a
/// generation is pending.
pub open spec fn chat_step(pre: ChatViewV, post: CurrentScreen, e: Effect, key: KeyInput) -> bool {
    match key {
        KeyInput::Tab => is_chat(post, ChatViewV { show_sidebar: true, ..pre }) && e is Nothing,
        KeyInput::Up => is_chat(
            post,
            ChatViewV {
                scroll: if pre.scroll >= 5 {
                    pre.scroll - 5
                } else {
                    0
                },
                ..pre
            },
        ) && e is Nothing,
        KeyInput::Down => is_chat(
            post,
            ChatViewV {
                scroll: if pre.scroll + 5 <= usize::MAX {
                    pre.scroll + 5
                } else {
                    usize::MAX as int
                },
                ..pre
            },
        ) && e is Nothing,
        KeyInput::Char(c) => is_chat(
            post,
            ChatViewV { input_buffer: pre.input_buffer.push(c), ..pre },
        ) && e is Nothing,
        KeyInput::Backspace => is_chat(
            post,
            ChatViewV {
                input_buffer: if pre.input_buffer.len() > 0 {
                    pre.input_buffer.drop_last()
                } else {
                    pre.input_buffer
                },
                ..pre
            },
        ) && e is Nothing,
        KeyInput::Enter => {
            let t = trim_of(pre.input_buffer);
            if t.len() > 0 && !pre.pending_generation {
                &&& is_chat(
                    post,
                    ChatViewV {
                        messages: pre.messages.push(
                            MessageView { role: Role::User, content: t },
                        ),
                        input_buffer: Seq::<char>::empty(),
                        pending_generation: true,
                        ..pre
                    },
                )
                &&& e matches Effect::SubmitGeneration { history, prompt } && history.deep_view()
                    == pre.messages && prompt@ == t
            } else {
                is_chat(post, pre) && e is Nothing
            }
        },
        KeyInput::Esc => if pre.pending_generation {
            is_chat(post, pre) && e is Nothing
        } else {
            (post matches CurrentScreen::MainMenu(m) && m.selected == 0) && e is Nothing
        },
        _ => is_chat(post, pre) && e is Nothing,
    }
}

/// Law: a submission attempted while a generation is already pending is
/// rejected: the screen is unchanged and no work is started.
pub proof fn lemma_second_submission_rejected(pre: ChatViewV, post: CurrentScreen, e: Effect)
    requires
        pre.pending_generation,
        chat_step(pre, post, e, KeyInput::Enter),
    ensures
        is_chat(post, pre),
        e is Nothing,
{
}

impl CurrentScreen {
    /// Handles a key while the sidebar is visible.
    pub fn handle_chat_view_sidebar(chat: &mut ChatView, key: KeyInput) -> (e: Effect)
        requires
            old(chat).wf(),
            old(chat).show_sidebar,
        ensures
            sidebar_step(old(chat)@, final(chat)@, e, key),
            final(chat).wf(),
            final(chat).show_sidebar == (final(chat)@.show_sidebar),
    {
        let is_editing = chat.sidebar_input_mode.is_some();
        if is_editing {
            match key {
                KeyInput::Enter => {
                    let name = trim_string(&chat.sidebar_input_buffer);
                    let mode = match chat.sidebar_input_mode {
                        Some(m) => m,
                        None => SidebarInputMode::Renaming,
                    };
                    let mut made_change = false;
                    if name.as_str().unicode_len() > 0 {
                        match mode {
                            SidebarInputMode::NewBranch => {
                                if !chat.pending_generation && chat.branches.len() < usize::MAX {
                                    let nid = next_branch_id(&chat.branches);
                                    let nb = ChatBranch { id: nid, name, messages: Vec::new() };
                                    let ghost nbv = nb@;
                                    let ghost pre_branches = chat.branches.deep_view();
                                    chat.branches.push(nb);
                                    chat.selected_branch = chat.branches.len() - 1;
                                    chat.messages = Vec::new();
                                    made_change = true;
                                    proof {
                                        assert(nbv.messages
                                            =~= Seq::<MessageView>::empty());
                                        assert(nbv == (BranchView {
                                            id: nid as int,
                                            name: trim_of(old(chat)@.sidebar_input_buffer),
                                            messages: Seq::<MessageView>::empty(),
                                        }));
                                        assert(chat.branches.deep_view() =~= pre_branches.push(
                                            nbv,
                                        ));
                                        assert(chat.branches.deep_view().last() == nbv);
                                        assert(chat.messages.deep_view()
                                            =~= Seq::<MessageView>::empty());
                                    }
                                }
                            },
                            SidebarInputMode::Renaming => {
                                let sel = chat.selected_branch;
                                let ghost pre_branches = chat.branches.deep_view();
                                chat.branches[sel].name = name;
                                made_change = true;
                                proof {
                                    assert(chat.branches.deep_view() =~= pre_branches.update(
                                        sel as int,
                                        BranchView {
                                            name: trim_of(old(chat)@.sidebar_input_buffer),
                                            ..pre_branches[sel as int]
                                        },
                                    ));
                                }
                            },
                        }
                    }
                    chat.sidebar_input_mode = None;
                    chat.sidebar_input_buffer = String::new();
                    if made_change {
                        Effect::PersistBranches
                    } else {
                        Effect::Nothing
                    }
                },
                KeyInput::Char(c) => {
                    string_push(&mut chat.sidebar_input_buffer, c);
                    Effect::Nothing
                },
                KeyInput::Backspace => {
                    string_pop(&mut chat.sidebar_input_buffer);
                    Effect::Nothing
                },
                KeyInput::Esc => {
                    chat.sidebar_input_mode = None;
                    chat.sidebar_input_buffer = String::new();
                    Effect::Nothing
                },
                _ => Effect::Nothing,
            }
        } else {
            match key {
                KeyInput::Char(c) => {
                    if c == 'j' || c == 'k' {
                        if !chat.pending_generation {
                            let len = chat.branches.len();
                            let ns = if c == 'j' {
                                (chat.selected_branch + 1) % len
                            } else if chat.selected_branch == 0 {
                                len - 1
                            } else {
                                chat.selected_branch - 1
                            };
                            proof {
                                let s = old(chat)@.selected_branch;
                                let n = old(chat)@.branches.len() as int;
                                if c != 'j' {
                                    if s == 0 {
                                        vstd::arithmetic::div_mod::lemma_small_mod(
                                            (n - 1) as nat,
                                            n as nat,
                                        );
                                    } else {
                                        vstd::arithmetic::div_mod::lemma_mod_multiples_vanish(
                                            1,
                                            s - 1,
                                            n,
                                        );
                                        vstd::arithmetic::div_mod::lemma_small_mod(
                                            (s - 1) as nat,
                                            n as nat,
                                        );
                                        assert(s + n - 1 == n * 1 + (s - 1));
                                    }
                                }
                            }
                            chat.selected_branch = ns;
                            chat.messages = copy_messages(&chat.branches[ns].messages);
                        }
                        Effect::Nothing
                    } else if c == 'n' {
                        if !chat.pending_generation {
                            chat.sidebar_input_mode = Some(SidebarInputMode::NewBranch);
                            chat.sidebar_input_buffer = crate::chat_branch::default_branch_title();
                        }
                        Effect::Nothing
                    } else if c == 'r' {
                        chat.sidebar_input_mode = Some(SidebarInputMode::Renaming);
                        chat.sidebar_input_buffer =
                            chat.branches[chat.selected_branch].name.clone();
                        Effect::Nothing
                    } else {
                        Effect::Nothing
                    }
                },
                KeyInput::Enter => {
                    if !chat.pending_generation {
                        chat.show_sidebar = false;
                    }
                    Effect::Nothing
                },
                KeyInput::Tab | KeyInput::Esc => {
                    chat.show_sidebar = false;
                    Effect::Nothing
                },
                _ => Effect::Nothing,
            }
        }
    }

    /// Handles a key on the conversation screen.
    pub fn handle_chat_view(&mut self, key: KeyInput) -> (e: Effect)
        requires
            *old(self) is ChatView,
            (*old(self))->ChatView_0.wf(),
        ensures
            (*old(self))->ChatView_0@.show_sidebar ==> *final(self) is ChatView && sidebar_step(
                (*old(self))->ChatView_0@,
                (*final(self))->ChatView_0@,
                e,
                key,
            ),
            !(*old(self))->ChatView_0@.show_sidebar ==> chat_step(
                (*old(self))->ChatView_0@,
                *final(self),
                e,
                key,
            ),
            *final(self) is ChatView ==> (*final(self))->ChatView_0.wf(),
    {
        let (sidebar_shown, pending) = match &*self {
            CurrentScreen::ChatView(c) => (c.show_sidebar, c.pending_generation),
            _ => (false, false),
        };
        if !sidebar_shown {
            if let KeyInput::Esc = key {
                if !pending {
                    *self = CurrentScreen::MainMenu(MainMenu { selected: 0 });
                }
                return Effect::Nothing;
            }
        }
        match self {
            CurrentScreen::ChatView(chat) => {
                if sidebar_shown {
                    Self::handle_chat_view_sidebar(chat, key)
                } else {
                    match key {
                        KeyInput::Tab => {
                            chat.show_sidebar = true;
                            Effect::Nothing
                        },
                        KeyInput::Up => {
                            if chat.scroll >= 5 {
                                chat.scroll = chat.scroll - 5;
                            } else {
                                chat.scroll = 0;
                            }
                            Effect::Nothing
                        },
                        KeyInput::Down => {
                            if chat.scroll <= usize::MAX - 5 {
                                chat.scroll = chat.scroll + 5;
                            } else {
                                chat.scroll = usize::MAX;
                            }
                            Effect::Nothing
                        },
                        KeyInput::Char(c) => {
                            string_push(&mut chat.input_buffer, c);
                            Effect::Nothing
                        },
                        KeyInput::Backspace => {
                            string_pop(&mut chat.input_buffer);
                            Effect::Nothing
                        },
                        KeyInput::Enter => {
                            let t = trim_string(&chat.input_buffer);
                            if t.as_str().unicode_len() > 0 && !chat.pending_generation {
                                let history = copy_messages(&chat.messages);
                                let prompt = t.clone();
                                chat.messages.push(user_message(t));
                                chat.pending_generation = true;
                                chat.input_buffer = String::new();
                                proof {
                                    let pre = (*old(self))->ChatView_0@;
                                    let um = MessageView {
                                        role: Role::User,
                                        content: trim_of(pre.input_buffer),
                                    };
                                    assert(chat.messages.deep_view() =~= pre.messages.push(um));
                                    assert(chat.messages.deep_view().drop_last() =~= pre.messages);
                                }
                                Effect::SubmitGeneration { history, prompt }
                            } else {
                                Effect::Nothing
                            }
                        },
                        _ => Effect::Nothing,
                    }
                }
            },
            _ => Effect::Nothing,
        }
    }

    /// Opens the conversation screen around a freshly loaded branch list,
    /// synthesizing a default branch when the persisted set was empty, with
    /// the first branch selected and its transcript loaded.
    pub fn enter_chat(&mut self, loaded: Vec<ChatBranch>) -> (r: ())
        requires
            ids_unique(loaded.deep_view()),
        ensures
            *final(self) matches CurrentScreen::ChatView(c) && c.wf() && c@ == (ChatViewV {
                messages: if loaded@.len() == 0 {
                    Seq::<MessageView>::empty()
                } else {
                    loaded.deep_view()[0].messages
                },
                input_buffer: Seq::<char>::empty(),
                branches: if loaded@.len() == 0 {
                    seq![
                        BranchView {
                            id: 0,
                            name: default_branch_name(),
                            messages: Seq::<MessageView>::empty(),
                        },
                    ]
                } else {
                    loaded.deep_view()
                },
                selected_branch: 0,
                show_sidebar: false,
                sidebar_input_mode: None,
                sidebar_input_buffer: Seq::<char>::empty(),
                scroll: 0,
                pending_generation: false,
            }),
    {
        let branches = bootstrap_branches(loaded);
        let messages = copy_messages(&branches[0].messages);
        *self = CurrentScreen::ChatView(
            ChatView {
                messages,
                input_buffer: String::new(),
                branches,
                selected_branch: 0,
                show_sidebar: false,
                sidebar_input_mode: None,
                sidebar_input_buffer: String::new(),
                scroll: 0,
                pending_generation: false,
            },
        );
    }
}

/// Whether a branch may still receive an automatic title: it carries the
/// bootstrap name, or none.
pub open spec fn title_target(bs: Seq<BranchView>, k: int, id: int) -> bool {
    &&& 0 <= k < bs.len()
    &&& bs[k].id == id
    &&& (bs[k].name == default_branch_name() || bs[k].name.len() == 0)
}

/// The first branch that may still receive the title, if any.
pub open spec fn title_slot(bs: Seq<BranchView>, id: int) -> Option<int>
    decreases bs.len(),
{
    if bs.len() == 0 {
        None
    } else if bs[0].id == id && (bs[0].name == default_branch_name() || bs[0].name.len() == 0) {
        Some(0)
    } else {
        match title_slot(bs.drop_first(), id) {
            Some(k) => Some(k + 1),
            None => None,
        }
    }
}

/// How a best-effort title lands on the session state: when some branch
/// with the given id still carries its bootstrap (or an empty) name, the
/// first such branch is renamed to the title and persisted; otherwise
/// nothing changes and the title is dropped.
pub open spec fn title_step(
    pre: ChatViewV,
    post: ChatViewV,
    e: Effect,
    id: int,
    title: Seq<char>,
) -> bool {
    match title_slot(pre.branches, id) {
        Some(k) => post == (ChatViewV {
            branches: pre.branches.update(k, BranchView { name: title, ..pre.branches[k] }),
            ..pre
        }) && e is PersistBranches,
        None => post == pre && e is Nothing,
    }
}

proof fn lemma_title_slot_skip(bs: Seq<BranchView>, i: int, id: int)
    requires
        0 <= i <= bs.len(),
        forall|j: int| 0 <= j < i ==> !title_target(bs, j, id),
    ensures
        title_slot(bs, id) == match title_slot(bs.subrange(i, bs.len() as int), id) {
            Some(k) => Some(k + i),
            None => None::<int>,
        },
    decreases i,
{
    if i > 0 {
        assert(!title_target(bs, 0, id));
        let t = bs.drop_first();
        assert forall|j: int| 0 <= j < i - 1 implies !title_target(t, j, id) by {
            assert(t[j] == bs[j + 1]);
            assert(!title_target(bs, j + 1, id));
        }
        lemma_title_slot_skip(t, i - 1, id);
        assert(t.subrange(i - 1, t.len() as int) =~= bs.subrange(i, bs.len() as int));
    } else {
        assert(bs.subrange(0, bs.len() as int) =~= bs);
    }
}

/// How a generation outcome lands on the session state: the reply (or the
/// tagged error text) is appended to the working copy, the working copy is
/// written back to the selected branch, the pending flag is cleared, and
/// the driver is asked to persist (and to fetch a title when the branch
/// still carries its bootstrap or an empty name).
pub open spec fn apply_step(
    pre: ChatViewV,
    post: ChatViewV,
    e: Effect,
    outcome: GenerationOutcome,
) -> bool {
    let reply = MessageView { role: Role::Assistant, content: outcome_text(outcome) };
    let sel = pre.selected_branch;
    &&& post.messages == pre.messages.push(reply)
    &&& post.branches == pre.branches.update(
        sel,
        BranchView { messages: pre.messages.push(reply), ..pre.branches[sel] },
    )
    &&& post == (ChatViewV {
        messages: post.messages,
        branches: post.branches,
        pending_generation: false,
        ..pre
    })
    &&& if pre.branches[sel].name == default_branch_name() || pre.branches[sel].name.len() == 0 {
        e is PersistBranchesAndTitle
    } else {
        e is PersistBranches
    }
}

/// Law: one full exchange appends exactly two messages to the selected
/// branch — the submitted user turn followed by the assistant turn — and
/// no other branch's messages change.  `mid` is the state right after a
/// submission was accepted, `post` the state after its outcome was applied.
pub proof fn lemma_exchange_appends_two(
    pre: ChatViewV,
    mid: ChatViewV,
    post: ChatViewV,
    e: Effect,
    outcome: GenerationOutcome,
)
    requires
        chat_wf_v(pre),
        !pre.pending_generation,
        trim_of(pre.input_buffer).len() > 0,
        mid == (ChatViewV {
            messages: pre.messages.push(
                MessageView { role: Role::User, content: trim_of(pre.input_buffer) },
            ),
            input_buffer: Seq::<char>::empty(),
            pending_generation: true,
            ..pre
        }),
        apply_step(mid, post, e, outcome),
    ensures
        post.branches.len() == pre.branches.len(),
        post.branches[pre.selected_branch].messages == pre.branches[pre.selected_branch].messages
            + seq![
            MessageView { role: Role::User, content: trim_of(pre.input_buffer) },
            MessageView { role: Role::Assistant, content: outcome_text(outcome) },
        ],
        forall|j: int|
            0 <= j < pre.branches.len() && j != pre.selected_branch ==> post.branches[j]
                == pre.branches[j],
        !post.pending_generation,
{
    let sel = pre.selected_branch;
    let um = MessageView { role: Role::User, content: trim_of(pre.input_buffer) };
    let reply = MessageView { role: Role::Assistant, content: outcome_text(outcome) };
    assert(pre.messages == pre.branches[sel].messages);
    assert(post.branches[sel].messages == mid.messages.push(reply));
    assert(mid.messages.push(reply) =~= pre.branches[sel].messages + seq![um, reply]);
}

impl ChatView {
    /// Applies the outcome of the outstanding generation to the session
    /// state: the reply (or the tagged error text) is appended to the
    /// working copy, the whole exchange — exactly one user turn and one
    /// assistant turn, in that order — is written back to the selected
    /// branch and no other, and the pending flag is cleared.  The driver is
    /// asked to persist, and to fetch a title when the branch still carries
    /// its bootstrap name.
    pub fn apply_generation_result(&mut self, outcome: GenerationOutcome) -> (e: Effect)
        requires
            old(self).wf(),
            old(self).pending_generation,
        ensures
            final(self).wf(),
            !final(self).pending_generation,
            apply_step(old(self)@, final(self)@, e, outcome),
            ({
                let pre = old(self)@;
                let post = final(self)@;
                let reply = MessageView { role: Role::Assistant, content: outcome_text(outcome) };
                let sel = pre.selected_branch;
                &&& post.branches[sel].messages == pre.branches[sel].messages + seq![
                    pre.messages.last(),
                    reply,
                ]
                &&& pre.messages.last().role == Role::User
                &&& forall|j: int|
                    0 <= j < pre.branches.len() && j != sel ==> post.branches[j] == pre.branches[j]
            }),
    {
        let ghost pre = self@;
        let text = outcome_to_text(outcome);
        self.messages.push(assistant_message(text));
        let sel = self.selected_branch;
        let msgs = copy_messages(&self.messages);
        let ghost pre_branches = self.branches.deep_view();
        self.branches[sel].messages = msgs;
        self.pending_generation = false;
        let def = crate::chat_branch::default_branch_title();
        let sel_name_len = self.branches[sel].name.as_str().unicode_len();
        let needs_title = self.branches[sel].name == def || sel_name_len == 0;
        proof {
            let reply = MessageView {
                role: Role::Assistant,
                content: outcome_text(outcome),
            };
            assert(self.messages.deep_view() =~= pre.messages.push(reply));
            assert(self.branches.deep_view() =~= pre_branches.update(
                sel as int,
                BranchView { messages: pre.messages.push(reply), ..pre_branches[sel as int] },
            ));
            assert(self@.branches[sel as int].messages =~= pre.branches[sel as int].messages
                + seq![pre.messages.last(), reply]);
            assert(self.branches@[sel as int]@ == self.branches.deep_view()[sel as int]);
            assert(self@ =~= (ChatViewV {
                messages: self@.messages,
                branches: self@.branches,
                pending_generation: false,
                ..pre
            }));
            assert(needs_title == (pre.branches[sel as int].name == default_branch_name()
                || pre.branches[sel as int].name.len() == 0));
        }
        if needs_title {
            Effect::PersistBranchesAndTitle
        } else {
            Effect::PersistBranches
        }
    }

    /// Applies a best-effort auto-title: the branch with the given id is
    /// renamed only if it exists and still carries its bootstrap (or an
    /// empty) name, and the change is persisted.  Everything else about the
    /// session state is untouched; a title that arrives late, for a branch
    /// renamed meanwhile, is dropped.
    pub fn apply_title_result(&mut self, branch_id: usize, title: String) -> (e: Effect)
        requires
            old(self).wf(),
        ensures
            final(self).wf(),
            title_step(old(self)@, final(self)@, e, branch_id as int, title@),
    {
        let ghost pre = self@;
        let def = crate::chat_branch::default_branch_title();
        let n = self.branches.len();
        let mut k: usize = 0;
        while k < n
            invariant
                pre == old(self)@,
                self@ == pre,
                chat_wf_v(pre),
                def@ == default_branch_name(),
                n == pre.branches.len(),
                k <= n,
                forall|j: int| 0 <= j < k ==> !title_target(pre.branches, j, branch_id as int),
            decreases n - k,
        {
            proof {
                assert(pre.branches[k as int] == self.branches@[k as int]@);
            }
            let id_match = self.branches[k].id == branch_id;
            let k_name_len = self.branches[k].name.as_str().unicode_len();
            let name_match = self.branches[k].name == def || k_name_len == 0;
            proof {
                assert((id_match && name_match) == title_target(
                    pre.branches,
                    k as int,
                    branch_id as int,
                ));
            }
            if id_match && name_match {
                let ghost pre_branches = self.branches.deep_view();
                self.branches[k].name = title;
                proof {
                    assert(self.branches.deep_view() =~= pre_branches.update(
                        k as int,
                        BranchView { name: title@, ..pre_branches[k as int] },
                    ));
                    assert(title_target(pre.branches, k as int, branch_id as int));
                    lemma_title_slot_skip(pre.branches, k as int, branch_id as int);
                    let rest = pre.branches.subrange(k as int, pre.branches.len() as int);
                    assert(rest[0] == pre.branches[k as int]);
                    assert(title_slot(rest, branch_id as int) == Some(0int));
                    assert(title_slot(pre.branches, branch_id as int) == Some(k as int));
                    assert(self@ =~= (ChatViewV {
                        branches: pre.branches.update(
                            k as int,
                            BranchView { name: title@, ..pre.branches[k as int] },
                        ),
                        ..pre
                    }));
                    assert(title_step(
                        pre,
                        self@,
                        Effect::PersistBranches,
                        branch_id as int,
                        title@,
                    ));
                }
                return Effect::PersistBranches;
            }
            k = k + 1;
        }
        proof {
            assert(forall|j: int|
                0 <= j < pre.branches.len() ==> !title_target(pre.branches, j, branch_id as int));
            lemma_title_slot_skip(pre.branches, pre.branches.len() as int, branch_id as int);
            assert(pre.branches.subrange(
                pre.branches.len() as int,
                pre.branches.len() as int,
            ) =~= Seq::<BranchView>::empty());
            assert(title_slot(pre.branches, branch_id as int) is None);
            assert(title_step(pre, self@, Effect::Nothing, branch_id as int, title@));
        }
        Effect::Nothing
    }
}

} // verus!
