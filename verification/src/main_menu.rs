//! The main menu screen: three entries (conversation view, configuration,
//! exit) with cyclic selection.

use crate::app::{CurrentScreen, Exit, KeyInput};
use crate::dispatch::Effect;
use vstd::prelude::*;

verus! {

/// The number of menu entries.
pub open spec fn menu_len() -> int {
    3
}

/// The main menu screen state.
pub struct MainMenu {
    pub selected: usize,
}

impl MainMenu {
    /// A menu selection is always one of the three entries.
    pub open spec fn wf(self) -> bool {
        self.selected < 3
    }
}

/// How a key event acts on the main menu.  Selection moves cyclically,
/// modulo the number of entries, in both directions; confirm maps the
/// selection to opening the conversation screen, opening the configuration
/// screen, or terminating; every other key leaves the menu unchanged.
pub open spec fn menu_step(pre: int, post: CurrentScreen, e: Effect, key: KeyInput) -> bool {
    match key {
        KeyInput::Char(c) => if c == 'j' {
            post matches CurrentScreen::MainMenu(m) && m.selected == (pre + 1) % menu_len()
                && e is Nothing
        } else if c == 'k' {
            post matches CurrentScreen::MainMenu(m) && m.selected == (pre + 2) % menu_len()
                && e is Nothing
        } else {
            post matches CurrentScreen::MainMenu(m) && m.selected == pre && e is Nothing
        },
        KeyInput::Down => post matches CurrentScreen::MainMenu(m) && m.selected == (pre + 1)
            % menu_len() && e is Nothing,
        KeyInput::Up => post matches CurrentScreen::MainMenu(m) && m.selected == (pre + 2)
            % menu_len() && e is Nothing,
        KeyInput::Enter => if pre == 0 {
            post matches CurrentScreen::MainMenu(m) && m.selected == pre && e is LoadChat
        } else if pre == 1 {
            post matches CurrentScreen::MainMenu(m) && m.selected == pre && e is LoadSettings
        } else {
            post matches CurrentScreen::Exit(x) && x.data@ == "Bye!"@ && e is Nothing
        },
        _ => post matches CurrentScreen::MainMenu(m) && m.selected == pre && e is Nothing,
    }
}

/// Law: one selection step followed by its inverse returns to the original
/// entry, from any entry and in either order.
pub proof fn lemma_menu_cycle_inverse(pre: int)
    requires
        0 <= pre < menu_len(),
    ensures
        ((pre + 1) % menu_len() + 2) % menu_len() == pre,
        ((pre + 2) % menu_len() + 1) % menu_len() == pre,
{
}

impl CurrentScreen {
    /// Handles a key on the main menu.  Opening a target screen first needs
    /// its data loaded, so confirm returns a load effect and the driver
    /// then calls the matching `enter_` constructor.
    pub fn handle_main_menu(&mut self, key: KeyInput) -> (e: Effect)
        requires
            *old(self) is MainMenu,
            (*old(self))->MainMenu_0.wf(),
        ensures
            menu_step((*old(self))->MainMenu_0.selected as int, *final(self), e, key),
            *final(self) is MainMenu ==> (*final(self))->MainMenu_0.wf(),
    {
        let sel = match self {
            CurrentScreen::MainMenu(menu) => menu.selected,
            _ => 0,
        };
        match key {
            KeyInput::Char('j') | KeyInput::Down => {
                *self = CurrentScreen::MainMenu(MainMenu { selected: (sel + 1) % 3 });
                Effect::Nothing
            },
            KeyInput::Char('k') | KeyInput::Up => {
                *self = CurrentScreen::MainMenu(MainMenu { selected: (sel + 2) % 3 });
                Effect::Nothing
            },
            KeyInput::Enter => {
                if sel == 0 {
                    Effect::LoadChat
                } else if sel == 1 {
                    Effect::LoadSettings
                } else {
                    *self = CurrentScreen::Exit(Exit { data: "Bye!".to_owned() });
                    Effect::Nothing
                }
            },
            _ => Effect::Nothing,
        }
    }
}

} // verus!
