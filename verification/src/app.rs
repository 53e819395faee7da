//! The screen state machine: exactly one screen is active at a time, and
//! every transition is driven by a discrete key event.
//!
//! Key handling never performs input/output itself: a handler mutates the
//! active screen (or replaces it) and returns an [`Effect`](crate::dispatch::Effect)
//! telling the driver what outside work to perform.

use crate::chat_view::ChatView;
use crate::dispatch::Effect;
use crate::main_menu::MainMenu;
use crate::settings::Config;
use vstd::prelude::*;

verus! {

/// The discrete input vocabulary the state machine consumes.  The driver
/// maps whatever its terminal backend reports onto these events.
#[derive(Clone, Copy, Debug, PartialEq, Eq, Structural)]
pub enum KeyInput {
    Char(char),
    Enter,
    Backspace,
    Esc,
    Tab,
    Up,
    Down,
    Left,
    Right,
    Other,
}

/// The terminated screen: a true sink, no handler transitions out of it.
pub struct Exit {
    pub data: String,
}

/// The currently active screen.
pub enum CurrentScreen {
    MainMenu(MainMenu),
    ChatView(ChatView),
    Settings(Config),
    Exit(Exit),
}

/// Well-formedness of whichever screen is active.
pub open spec fn screen_wf(s: CurrentScreen) -> bool {
    match s {
        CurrentScreen::MainMenu(m) => m.wf(),
        CurrentScreen::ChatView(c) => c.wf(),
        CurrentScreen::Settings(c) => c.wf(),
        CurrentScreen::Exit(_) => true,
    }
}

impl CurrentScreen {
    /// Feeds one key event to the active screen's handler.  The terminated
    /// screen is a sink: no key moves the session out of it.
    pub fn on_key(&mut self, key: KeyInput) -> (e: Effect)
        requires
            screen_wf(*old(self)),
        ensures
            screen_wf(*final(self)),
            *old(self) is MainMenu ==> crate::main_menu::menu_step(
                (*old(self))->MainMenu_0.selected as int,
                *final(self),
                e,
                key,
            ),
            *old(self) is Settings ==> crate::settings::settings_step(
                (*old(self))->Settings_0@,
                *final(self),
                e,
                key,
            ),
            *old(self) is ChatView && (*old(self))->ChatView_0@.show_sidebar ==> *final(self) is ChatView
                && crate::chat_view::sidebar_step(
                (*old(self))->ChatView_0@,
                (*final(self))->ChatView_0@,
                e,
                key,
            ),
            *old(self) is ChatView && !(*old(self))->ChatView_0@.show_sidebar
                ==> crate::chat_view::chat_step((*old(self))->ChatView_0@, *final(self), e, key),
            *old(self) is Exit ==> *final(self) == *old(self) && e is Nothing,
    {
        let tag: u8 = match &*self {
            CurrentScreen::MainMenu(_) => 0,
            CurrentScreen::ChatView(_) => 1,
            CurrentScreen::Settings(_) => 2,
            CurrentScreen::Exit(_) => 3,
        };
        if tag == 0 {
            self.handle_main_menu(key)
        } else if tag == 1 {
            self.handle_chat_view(key)
        } else if tag == 2 {
            self.handle_settings(key)
        } else {
            Effect::Nothing
        }
    }
}

} // verus!
