//! The translation-service surface the configuration speaks of: which
//! provider to call and where it lives. Calling the service stays with the
//! caller.

use vstd::prelude::*;

use vstd::string::StringExecFns;

use crate::text::{lower_seq, str_chars, chars_to_string, lower_chars};

verus! {

/// A translation provider: a well-known service or a custom endpoint URL.
pub enum TranslationProvider {
    OpenAI,
    Ollama,
    Custom(String),
}

/// The base URL of each provider.
pub open spec fn base_url_spec(p: TranslationProvider) -> Seq<char> {
    match p {
        TranslationProvider::OpenAI => "https://api.openai.com/v1"@,
        TranslationProvider::Ollama => "http://localhost:11434/v1"@,
        TranslationProvider::Custom(url) => url@,
    }
}

impl TranslationProvider {
    /// The service endpoint this provider talks to.
    pub fn get_base_url(&self) -> (r: &str)
        ensures
            r@ == base_url_spec(*self),
    {
        match self {
            TranslationProvider::OpenAI => "https://api.openai.com/v1",
            TranslationProvider::Ollama => "http://localhost:11434/v1",
            TranslationProvider::Custom(url) => url.as_str(),
        }
    }

    /// The provider named by a configuration string: `openai`, `ollama`,
    /// an `http...` URL for a custom endpoint, and OpenAI for anything
    /// else.
    pub fn from_string(s: &str) -> (r: TranslationProvider) {
        let lowered = chars_to_string(&lower_chars(&str_chars(s)));
        if crate::text::str_eq(lowered.as_str(), "openai") {
            TranslationProvider::OpenAI
        } else if crate::text::str_eq(lowered.as_str(), "ollama") {
            TranslationProvider::Ollama
        } else if starts_with_http(lowered.as_str()) {
            TranslationProvider::Custom(lowered)
        } else {
            TranslationProvider::OpenAI
        }
    }
}

/// Whether the lowered string begins with `http`.
fn starts_with_http(s: &str) -> (r: bool)
    ensures
        r == (s@.len() >= 4 && s@.subrange(0, 4) =~= seq!['h', 't', 't', 'p']),
{
    let n = s.unicode_len();
    if n < 4 {
        return false;
    }
    let r = s.get_char(0) == 'h' && s.get_char(1) == 't' && s.get_char(2) == 't' && s.get_char(3)
        == 'p';
    proof {
        if r {
            assert(s@.subrange(0, 4) =~= seq!['h', 't', 't', 'p']);
        } else {
            assert(!(s@.subrange(0, 4) =~= seq!['h', 't', 't', 'p']));
        }
    }
    r
}

impl core::str::FromStr for TranslationProvider {
    type Err = ();

    fn from_str(s: &str) -> Result<TranslationProvider, ()> {
        Ok(TranslationProvider::from_string(s))
    }
}

} // verus!
