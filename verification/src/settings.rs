//! The configuration screen: five focusable fields (backend, model, api-key
//! override, temperature, max-tokens) with cyclic focus movement.
//!
//! The two numeric fields are edited through ephemeral text drafts: a draft
//! commits into the typed setting only when it parses as the target type,
//! so a partial draft never corrupts the committed value.  Every successful
//! edit asks the driver to persist the full settings.

use crate::ai_backend::{milli_of, next_of, prev_of, AISettings, SettingsView};
use crate::app::{CurrentScreen, KeyInput};
use crate::dispatch::Effect;
use crate::main_menu::MainMenu;
use crate::text::{all_digits, digits_value, parse_usize, string_pop, string_push};
use vstd::prelude::*;

verus! {

/// The configuration screen state.
pub struct Config {
    pub ai_settings: AISettings,
    pub available_models: Vec<String>,
    pub selected_field: usize,
    pub temp_input: String,
    pub tokens_input: String,
}

/// The mathematical value of a [`Config`].
#[verifier::ext_equal]
pub struct ConfigV {
    pub settings: SettingsView,
    pub models: Seq<Seq<char>>,
    pub field: int,
    pub temp_input: Seq<char>,
    pub tokens_input: Seq<char>,
}

impl View for Config {
    type V = ConfigV;

    open spec fn view(&self) -> ConfigV {
        ConfigV {
            settings: self.ai_settings@,
            models: self.available_models.deep_view(),
            field: self.selected_field as int,
            temp_input: self.temp_input@,
            tokens_input: self.tokens_input@,
        }
    }
}

impl Config {
    /// The focused field is always one of the five.
    pub open spec fn wf(self) -> bool {
        self.selected_field < 5
    }
}

/// Whether `post` is the configuration screen with the given value.
pub open spec fn is_settings(post: CurrentScreen, v: ConfigV) -> bool {
    post matches CurrentScreen::Settings(c) && c@ == v
}

/// The committed temperature after a draft edit: the draft's value in
/// thousandths when it parses and fits, the previous value otherwise.
pub open spec fn temp_commit(draft: Seq<char>, prev: int) -> int {
    match milli_of(draft) {
        Some(m) => if m <= u32::MAX {
            m
        } else {
            prev
        },
        None => prev,
    }
}

/// The committed token limit after a draft edit: the draft's value when it
/// parses and fits, the previous value otherwise.
pub open spec fn tokens_commit(draft: Seq<char>, prev: int) -> int {
    if draft.len() > 0 && all_digits(draft) && digits_value(draft) <= usize::MAX {
        digits_value(draft)
    } else {
        prev
    }
}

/// How a key event acts on the configuration screen.  Focus moves
/// cyclically over the five fields; left/right on the backend field cycles
/// the backend enum; character and backspace edit the focused field, the
/// numeric fields through their drafts; every edit persists the settings;
/// escape returns to the menu.
pub open spec fn settings_step(pre: ConfigV, post: CurrentScreen, e: Effect, key: KeyInput) -> bool {
    match key {
        KeyInput::Up => is_settings(post, ConfigV { field: (pre.field + 4) % 5, ..pre })
            && e is Nothing,
        KeyInput::Down => is_settings(post, ConfigV { field: (pre.field + 1) % 5, ..pre })
            && e is Nothing,
        KeyInput::Left => if pre.field == 0 {
            is_settings(
                post,
                ConfigV {
                    settings: SettingsView { backend: prev_of(pre.settings.backend), ..pre.settings },
                    ..pre
                },
            ) && e is PersistSettings
        } else {
            is_settings(post, pre) && e is Nothing
        },
        KeyInput::Right => if pre.field == 0 {
            is_settings(
                post,
                ConfigV {
                    settings: SettingsView { backend: next_of(pre.settings.backend), ..pre.settings },
                    ..pre
                },
            ) && e is PersistSettings
        } else {
            is_settings(post, pre) && e is Nothing
        },
        KeyInput::Char(c) => if pre.field == 1 {
            is_settings(
                post,
                ConfigV {
                    settings: SettingsView { model: pre.settings.model.push(c), ..pre.settings },
                    ..pre
                },
            ) && e is PersistSettings
        } else if pre.field == 2 {
            is_settings(
                post,
                ConfigV {
                    settings: SettingsView {
                        api_key: match pre.settings.api_key {
                            Some(k) => Some(k.push(c)),
                            None => Some(seq![c]),
                        },
                        ..pre.settings
                    },
                    ..pre
                },
            ) && e is PersistSettings
        } else if pre.field == 3 {
            is_settings(
                post,
                ConfigV {
                    temp_input: pre.temp_input.push(c),
                    settings: SettingsView {
                        temperature_milli: temp_commit(
                            pre.temp_input.push(c),
                            pre.settings.temperature_milli,
                        ),
                        ..pre.settings
                    },
                    ..pre
                },
            ) && e is PersistSettings
        } else if pre.field == 4 {
            is_settings(
                post,
                ConfigV {
                    tokens_input: pre.tokens_input.push(c),
                    settings: SettingsView {
                        max_tokens: tokens_commit(
                            pre.tokens_input.push(c),
                            pre.settings.max_tokens,
                        ),
                        ..pre.settings
                    },
                    ..pre
                },
            ) && e is PersistSettings
        } else {
            is_settings(post, pre) && e is Nothing
        },
        KeyInput::Backspace => if pre.field == 1 {
            is_settings(
                post,
                ConfigV {
                    settings: SettingsView {
                        model: if pre.settings.model.len() > 0 {
                            pre.settings.model.drop_last()
                        } else {
                            pre.settings.model
                        },
                        ..pre.settings
                    },
                    ..pre
                },
            ) && e is PersistSettings
        } else if pre.field == 2 {
            is_settings(
                post,
                ConfigV {
                    settings: SettingsView {
                        api_key: match pre.settings.api_key {
                            Some(k) => Some(
                                if k.len() > 0 {
                                    k.drop_last()
                                } else {
                                    k
                                },
                            ),
                            None => None,
                        },
                        ..pre.settings
                    },
                    ..pre
                },
            ) && e is PersistSettings
        } else if pre.field == 3 {
            is_settings(
                post,
                ConfigV {
                    temp_input: if pre.temp_input.len() > 0 {
                        pre.temp_input.drop_last()
                    } else {
                        pre.temp_input
                    },
                    ..pre
                },
            ) && e is PersistSettings
        } else if pre.field == 4 {
            is_settings(
                post,
                ConfigV {
                    tokens_input: if pre.tokens_input.len() > 0 {
                        pre.tokens_input.drop_last()
                    } else {
                        pre.tokens_input
                    },
                    ..pre
                },
            ) && e is PersistSettings
        } else {
            is_settings(post, pre) && e is Nothing
        },
        KeyInput::Esc => (post matches CurrentScreen::MainMenu(m) && m.selected == 0)
            && e is Nothing,
        _ => is_settings(post, pre) && e is Nothing,
    }
}

impl CurrentScreen {
    /// Handles a key on the configuration screen.
    pub fn handle_settings(&mut self, key: KeyInput) -> (e: Effect)
        requires
            *old(self) is Settings,
            (*old(self))->Settings_0.wf(),
        ensures
            settings_step((*old(self))->Settings_0@, *final(self), e, key),
            *final(self) is Settings ==> (*final(self))->Settings_0.wf(),
    {
        if let KeyInput::Esc = key {
            *self = CurrentScreen::MainMenu(MainMenu { selected: 0 });
            return Effect::Nothing;
        }
        match self {
            CurrentScreen::Settings(conf) => match key {
                KeyInput::Up => {
                    conf.selected_field = (conf.selected_field + 4) % 5;
                    Effect::Nothing
                },
                KeyInput::Down => {
                    conf.selected_field = (conf.selected_field + 1) % 5;
                    Effect::Nothing
                },
                KeyInput::Left => {
                    if conf.selected_field == 0 {
                        conf.ai_settings.backend = conf.ai_settings.backend.prev_backend();
                        Effect::PersistSettings
                    } else {
                        Effect::Nothing
                    }
                },
                KeyInput::Right => {
                    if conf.selected_field == 0 {
                        conf.ai_settings.backend = conf.ai_settings.backend.next_backend();
                        Effect::PersistSettings
                    } else {
                        Effect::Nothing
                    }
                },
                KeyInput::Char(c) => {
                    if conf.selected_field == 1 {
                        string_push(&mut conf.ai_settings.model, c);
                        Effect::PersistSettings
                    } else if conf.selected_field == 2 {
                        match &mut conf.ai_settings.api_key {
                            Some(k) => string_push(k, c),
                            None => {
                                let mut k = String::new();
                                string_push(&mut k, c);
                                proof {
                                    assert(k@ =~= seq![c]);
                                }
                                conf.ai_settings.api_key = Some(k);
                            },
                        }
                        Effect::PersistSettings
                    } else if conf.selected_field == 3 {
                        string_push(&mut conf.temp_input, c);
                        match crate::ai_backend::parse_temperature_milli(&conf.temp_input) {
                            Some(m) => {
                                conf.ai_settings.temperature_milli = m;
                            },
                            None => {},
                        }
                        Effect::PersistSettings
                    } else if conf.selected_field == 4 {
                        string_push(&mut conf.tokens_input, c);
                        match parse_usize(&conf.tokens_input) {
                            Some(v) => {
                                conf.ai_settings.max_tokens = v;
                            },
                            None => {},
                        }
                        Effect::PersistSettings
                    } else {
                        Effect::Nothing
                    }
                },
                KeyInput::Backspace => {
                    if conf.selected_field == 1 {
                        string_pop(&mut conf.ai_settings.model);
                        Effect::PersistSettings
                    } else if conf.selected_field == 2 {
                        match &mut conf.ai_settings.api_key {
                            Some(k) => {
                                string_pop(k);
                            },
                            None => {},
                        }
                        Effect::PersistSettings
                    } else if conf.selected_field == 3 {
                        string_pop(&mut conf.temp_input);
                        Effect::PersistSettings
                    } else if conf.selected_field == 4 {
                        string_pop(&mut conf.tokens_input);
                        Effect::PersistSettings
                    } else {
                        Effect::Nothing
                    }
                },
                _ => Effect::Nothing,
            },
            _ => Effect::Nothing,
        }
    }

    /// Opens the configuration screen around freshly loaded settings, with
    /// the first field focused and empty numeric drafts.
    pub fn enter_settings(&mut self, settings: AISettings) -> (r: ())
        ensures
            *final(self) matches CurrentScreen::Settings(c) && c@ == (ConfigV {
                settings: settings@,
                models: seq![Seq::<char>::empty()],
                field: 0,
                temp_input: Seq::<char>::empty(),
                tokens_input: Seq::<char>::empty(),
            }),
            (*final(self))->Settings_0.wf(),
    {
        let mut models: Vec<String> = Vec::new();
        models.push(String::new());
        proof {
            assert(models.deep_view() =~= seq![Seq::<char>::empty()]);
        }
        *self = CurrentScreen::Settings(
            Config {
                ai_settings: settings,
                available_models: models,
                selected_field: 0,
                temp_input: String::new(),
                tokens_input: String::new(),
            },
        );
    }
}

} // verus!
