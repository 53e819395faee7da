//! The closed set of supported text-generation backends and the
//! process-wide generation settings.
//!
//! The backend set is a closed enum; cycling through it (used by the
//! configuration screen) is a pair of total functions that are exact
//! inverses of each other, and the mapping from a backend to the name of
//! the environment variable holding its credential is total as well.

use crate::text::{all_digits, digits_value, parse_digits_bounded, string_to_chars};
use vstd::prelude::*;

verus! {

/// A supported text-generation backend.
#[derive(Clone, Copy, Debug, PartialEq, Eq, Structural)]
pub enum AIBackend {
    OpenAI,
    Anthropic,
    Google,
    Groq,
    Ollama,
    XAi,
    Phind,
}

/// The name of the environment variable that holds the credential for a
/// backend.  The local backend (`Ollama`) is keyed by its base URL
/// variable instead, and `Phind` needs no credential.
pub open spec fn env_var_of(b: AIBackend) -> Seq<char> {
    match b {
        AIBackend::OpenAI => "OPENAI_API_KEY"@,
        AIBackend::Anthropic => "ANTHROPIC_API_KEY"@,
        AIBackend::Google => "GOOGLE_API_KEY"@,
        AIBackend::Groq => "GROQ_API_KEY"@,
        AIBackend::Ollama => "OLLAMA_URL"@,
        AIBackend::XAi => "XAI_API_KEY"@,
        AIBackend::Phind => ""@,
    }
}

/// The successor of a backend in the fixed circular order.
pub open spec fn next_of(b: AIBackend) -> AIBackend {
    match b {
        AIBackend::OpenAI => AIBackend::Anthropic,
        AIBackend::Anthropic => AIBackend::Google,
        AIBackend::Google => AIBackend::Groq,
        AIBackend::Groq => AIBackend::Ollama,
        AIBackend::Ollama => AIBackend::XAi,
        AIBackend::XAi => AIBackend::Phind,
        AIBackend::Phind => AIBackend::OpenAI,
    }
}

/// The predecessor of a backend in the fixed circular order.
pub open spec fn prev_of(b: AIBackend) -> AIBackend {
    match b {
        AIBackend::OpenAI => AIBackend::Phind,
        AIBackend::Anthropic => AIBackend::OpenAI,
        AIBackend::Google => AIBackend::Anthropic,
        AIBackend::Groq => AIBackend::Google,
        AIBackend::Ollama => AIBackend::Groq,
        AIBackend::XAi => AIBackend::Ollama,
        AIBackend::Phind => AIBackend::XAi,
    }
}

impl AIBackend {
    /// The environment variable consulted when no explicit key override is
    /// configured.
    pub fn to_env_var(self) -> (r: &'static str)
        ensures
            r@ == env_var_of(self),
    {
        match self {
            AIBackend::OpenAI => "OPENAI_API_KEY",
            AIBackend::Anthropic => "ANTHROPIC_API_KEY",
            AIBackend::Google => "GOOGLE_API_KEY",
            AIBackend::Groq => "GROQ_API_KEY",
            AIBackend::Ollama => "OLLAMA_URL",
            AIBackend::XAi => "XAI_API_KEY",
            AIBackend::Phind => "",
        }
    }

    /// The next backend in the fixed circular order.
    pub fn next_backend(self) -> (r: AIBackend)
        ensures
            r == next_of(self),
    {
        match self {
            AIBackend::OpenAI => AIBackend::Anthropic,
            AIBackend::Anthropic => AIBackend::Google,
            AIBackend::Google => AIBackend::Groq,
            AIBackend::Groq => AIBackend::Ollama,
            AIBackend::Ollama => AIBackend::XAi,
            AIBackend::XAi => AIBackend::Phind,
            AIBackend::Phind => AIBackend::OpenAI,
        }
    }

    /// The previous backend in the fixed circular order.
    pub fn prev_backend(self) -> (r: AIBackend)
        ensures
            r == prev_of(self),
    {
        match self {
            AIBackend::OpenAI => AIBackend::Phind,
            AIBackend::Anthropic => AIBackend::OpenAI,
            AIBackend::Google => AIBackend::Anthropic,
            AIBackend::Groq => AIBackend::Google,
            AIBackend::Ollama => AIBackend::Groq,
            AIBackend::XAi => AIBackend::Ollama,
            AIBackend::Phind => AIBackend::XAi,
        }
    }
}

/// Law: cycling the backend is a total bijection.  From any backend,
/// stepping forward and then backward (or backward and then forward)
/// returns to the original backend.
pub proof fn lemma_backend_cycle_bijective(b: AIBackend)
    ensures
        prev_of(next_of(b)) == b,
        next_of(prev_of(b)) == b,
{
}

/// The process-wide generation settings.  The temperature is an exact
/// decimal, held in thousandths, so that a partial text draft and the
/// committed value are never conflated.
#[derive(Debug, Clone)]
pub struct AISettings {
    pub backend: AIBackend,
    pub model: String,
    pub api_key: Option<String>,
    pub temperature_milli: u32,
    pub max_tokens: usize,
}

/// The mathematical value of an [`AISettings`].
#[verifier::ext_equal]
pub struct SettingsView {
    pub backend: AIBackend,
    pub model: Seq<char>,
    pub api_key: Option<Seq<char>>,
    pub temperature_milli: int,
    pub max_tokens: int,
}

impl View for AISettings {
    type V = SettingsView;

    open spec fn view(&self) -> SettingsView {
        SettingsView {
            backend: self.backend,
            model: self.model@,
            api_key: match self.api_key {
                Some(k) => Some(k@),
                None => None,
            },
            temperature_milli: self.temperature_milli as int,
            max_tokens: self.max_tokens as int,
        }
    }
}

/// The settings assumed before any were persisted.
pub open spec fn spec_default_settings() -> SettingsView {
    SettingsView {
        backend: AIBackend::OpenAI,
        model: "gpt-3.5-turbo"@,
        api_key: None,
        temperature_milli: 700,
        max_tokens: 2048,
    }
}

/// The settings assumed before any were persisted: the one place a
/// fallback configuration is constructed.
pub fn default_settings() -> (r: AISettings)
    ensures
        r@ == spec_default_settings(),
{
    AISettings {
        backend: AIBackend::OpenAI,
        model: "gpt-3.5-turbo".to_owned(),
        api_key: None,
        temperature_milli: 700,
        max_tokens: 2048,
    }
}

/// An exact copy of the settings.
pub fn copy_settings(s: &AISettings) -> (r: AISettings)
    ensures
        r@ == s@,
{
    AISettings {
        backend: s.backend,
        model: s.model.clone(),
        api_key: match &s.api_key {
            Some(k) => Some(k.clone()),
            None => None,
        },
        temperature_milli: s.temperature_milli,
        max_tokens: s.max_tokens,
    }
}

/// The position of the first `.` in the sequence, if any.
pub open spec fn find_dot(s: Seq<char>) -> Option<int>
    decreases s.len(),
{
    if s.len() == 0 {
        None
    } else if s[0] == '.' {
        Some(0)
    } else {
        match find_dot(s.drop_first()) {
            Some(d) => Some(d + 1),
            None => None,
        }
    }
}

proof fn lemma_find_dot_skip(s: Seq<char>, i: int)
    requires
        0 <= i <= s.len(),
        forall|k: int| 0 <= k < i ==> s[k] != '.',
    ensures
        find_dot(s) == match find_dot(s.subrange(i, s.len() as int)) {
            Some(d) => Some(d + i),
            None => None::<int>,
        },
    decreases i,
{
    if i > 0 {
        let t = s.drop_first();
        assert(forall|k: int| 0 <= k < i - 1 ==> #[trigger] t[k] == s[k + 1]);
        lemma_find_dot_skip(t, i - 1);
        assert(t.subrange(i - 1, t.len() as int) =~= s.subrange(i, s.len() as int));
    } else {
        assert(s.subrange(0, s.len() as int) =~= s);
    }
}

/// The factor that scales a fractional part of the given length (at most
/// three digits) to thousandths.
pub open spec fn frac_scale(len: int) -> int {
    if len == 1 {
        100
    } else if len == 2 {
        10
    } else {
        1
    }
}

/// The value, in thousandths, of a decimal temperature draft: an integer
/// part (digits, non-empty), optionally followed by `.` and one to three
/// fractional digits.  Drafts of any other shape have no value.
pub open spec fn milli_of(s: Seq<char>) -> Option<int> {
    match find_dot(s) {
        None => if s.len() > 0 && all_digits(s) {
            Some(1000 * digits_value(s))
        } else {
            None
        },
        Some(d) => {
            let ip = s.subrange(0, d);
            let fp = s.subrange(d + 1, s.len() as int);
            if ip.len() > 0 && all_digits(ip) && 1 <= fp.len() <= 3 && all_digits(fp) {
                Some(1000 * digits_value(ip) + digits_value(fp) * frac_scale(fp.len() as int))
            } else {
                None
            }
        },
    }
}

/// Parses a temperature draft into thousandths.  Succeeds exactly when the
/// draft is a well-formed decimal whose value in thousandths fits `u32`.
pub fn parse_temperature_milli(s: &String) -> (r: Option<u32>)
    ensures
        match milli_of(s@) {
            Some(m) => if m <= u32::MAX {
                r == Some(m as u32)
            } else {
                r is None
            },
            None => r is None,
        },
        r matches Some(v) ==> milli_of(s@) == Some(v as int),
{
    let chars = string_to_chars(s.as_str());
    let n = chars.len();
    let mut i: usize = 0;
    while i < n && chars[i] != '.'
        invariant
            chars@ == s@,
            n == chars@.len(),
            i <= n,
            forall|k: int| 0 <= k < i ==> s@[k] != '.',
        decreases n - i,
    {
        i = i + 1;
    }
    proof {
        lemma_find_dot_skip(s@, i as int);
        assert(s@.subrange(s@.len() as int, s@.len() as int) =~= Seq::<char>::empty());
    }
    if i == n {
        // no dot
        proof {
            assert(find_dot(s@) is None);
            assert(s@.subrange(0, n as int) =~= s@);
        }
        let bound: u64 = (u32::MAX as u64) / 1000;
        proof {
            if n > 0 && all_digits(s@) {
                crate::text::lemma_digits_value_bound(s@);
            }
        }
        match parse_digits_bounded(&chars, 0, n, bound) {
            Some(v) => {
                proof {
                    assert(1000 * v <= u32::MAX) by (nonlinear_arith)
                        requires
                            0 <= v <= (u32::MAX as u64) / 1000,
                    ;
                }
                Some((v as u32) * 1000)
            },
            None => {
                proof {
                    if s@.len() > 0 && all_digits(s@) {
                        assert(digits_value(s@) > (u32::MAX as u64) / 1000);
                        assert(1000 * digits_value(s@) > u32::MAX) by (nonlinear_arith)
                            requires
                                digits_value(s@) > (u32::MAX as u64) / 1000,
                        ;
                    }
                }
                None
            },
        }
    } else {
        let d = i;
        proof {
            assert(s@[d as int] == '.');
            assert(find_dot(s@.subrange(d as int, s@.len() as int)) == Some(0int));
            assert(find_dot(s@) == Some(d as int));
        }
        let ghost fp = s@.subrange(d as int + 1, s@.len() as int);
        let fp_len = n - d - 1;
        if fp_len < 1 || fp_len > 3 {
            return None;
        }
        let frac = match parse_digits_bounded(&chars, d + 1, n, 999) {
            Some(f) => f,
            None => {
                proof {
                    if all_digits(fp) {
                        crate::text::lemma_digits_value_bound(fp);
                        reveal_with_fuel(crate::text::pow10, 4);
                        assert(crate::text::pow10(1) == 10 && crate::text::pow10(2) == 100
                            && crate::text::pow10(3) == 1000);
                        assert(false);
                    }
                }
                return None;
            },
        };
        let scale: u64 = if fp_len == 1 {
            100
        } else if fp_len == 2 {
            10
        } else {
            1
        };
        proof {
            crate::text::lemma_digits_value_bound(fp);
            reveal_with_fuel(crate::text::pow10, 4);
            assert(crate::text::pow10(1) == 10 && crate::text::pow10(2) == 100 && crate::text::pow10(
                3,
            ) == 1000);
            assert(frac * scale < 1000) by (nonlinear_arith)
                requires
                    0 <= frac,
                    (scale == 100 && frac < 10) || (scale == 10 && frac < 100) || (scale == 1
                        && frac < 1000),
            ;
        }
        let frac_scaled: u64 = frac * scale;
        proof {
            assert(frac_scaled == digits_value(fp) * frac_scale(fp.len() as int));
        }
        let bound: u64 = ((u32::MAX as u64) - frac_scaled) / 1000;
        let ghost ip = s@.subrange(0, d as int);
        proof {
            if d > 0 && all_digits(ip) {
                crate::text::lemma_digits_value_bound(ip);
            }
        }
        match parse_digits_bounded(&chars, 0, d, bound) {
            Some(v) => {
                proof {
                    assert(1000 * v + frac_scaled <= u32::MAX) by (nonlinear_arith)
                        requires
                            0 <= v,
                            0 <= frac_scaled < 1000,
                            frac_scaled <= u32::MAX,
                            v <= ((u32::MAX as u64) - frac_scaled) / 1000,
                    ;
                }
                Some((v as u32) * 1000 + (frac_scaled as u32))
            },
            None => {
                proof {
                    if ip.len() > 0 && all_digits(ip) {
                        assert(digits_value(ip) > bound);
                        assert(1000 * digits_value(ip) + frac_scaled > u32::MAX) by (nonlinear_arith)
                            requires
                                digits_value(ip) > ((u32::MAX as u64) - frac_scaled) / 1000,
                                0 <= frac_scaled < 1000,
                                frac_scaled <= u32::MAX,
                        ;
                    }
                }
                None
            },
        }
    }
}

} // verus!
