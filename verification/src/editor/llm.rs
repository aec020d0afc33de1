use vstd::prelude::*;
use crate::text::{chars_of, push_str, string_of};

verus! {

pub const GROQ_DEFAULT_MODEL: &'static str = "llama-3.1-8b-instant";

/// An LLM provider with its credentials and model.
#[derive(Debug, PartialEq)]
pub enum Provider {
    Groq { api_key: String, model: String },
    Claude { api_key: String, model: String },
}

/// The message for a provider name that is not supported.
pub open spec fn unknown_provider_msg(name: Seq<char>) -> Seq<char> {
    "Unknown LLM provider: "@ + name + ". Use 'groq'."@
}

/// The provider name in effect: the variable's value, `groq` when unset.
pub open spec fn provider_name(name: Option<Seq<char>>) -> Seq<char> {
    match name {
        Some(n) => n,
        None => "groq"@,
    }
}

/// What `resolve_provider` answers when the provider variable held `name`
/// and, for Groq, the key variable held `key`: the Groq key, or the error message.
pub open spec fn provider_outcome(name: Option<Seq<char>>, key: Option<Seq<char>>) -> Result<Seq<char>, Seq<char>> {
    let n = provider_name(name);
    if n == "groq"@ {
        match key {
            None => Err("No API key. Set GROQ_API_KEY."@),
            Some(k) => Ok(k),
        }
    } else {
        Err(unknown_provider_msg(n))
    }
}

/// Whether `r` is the answer `provider_outcome` describes.
pub open spec fn answers(r: Result<Provider, String>, o: Result<Seq<char>, Seq<char>>) -> bool {
    match r {
        Ok(Provider::Groq { api_key, model }) => o == Ok::<Seq<char>, Seq<char>>(api_key@) && model@
            == GROQ_DEFAULT_MODEL@,
        Ok(Provider::Claude { .. }) => false,
        Err(e) => o == Err::<Seq<char>, Seq<char>>(e@),
    }
}

/// Resolve the provider from a lookup function (testable, no global state).
/// Reads `DEVTUI_LLM_PROVIDER` (`groq` when unset), then the matching API
/// key variable.
pub fn resolve_provider<F>(lookup: F) -> (r: Result<Provider, String>) where F: Fn(&str) -> Option<String>
    requires
        forall|k: &str| lookup.requires((k,)),
    ensures
        exists|p: Option<String>|
            #[trigger] lookup.ensures(("DEVTUI_LLM_PROVIDER",), p) && if provider_name(opt_chars(p)) == "groq"@ {
                exists|k: Option<String>|
                    #[trigger] lookup.ensures(("GROQ_API_KEY",), k) && answers(
                        r,
                        provider_outcome(opt_chars(p), opt_chars(k)),
                    )
            } else {
                answers(r, provider_outcome(opt_chars(p), None))
            },
{
    let name = lookup("DEVTUI_LLM_PROVIDER");
    let n = match name {
        Some(n) => n,
        None => String::from_str("groq"),
    };
    let nc = chars_of(n.as_str());
    let groq = chars_of("groq");
    proof {
        reveal_strlit("groq");
    }
    if crate::text::same_chars(&nc, &groq) {
        let key = lookup("GROQ_API_KEY");
        match key {
            None => {
                let msg = String::from_str("No API key. Set GROQ_API_KEY.");
                Err(msg)
            },
            Some(k) => Ok(Provider::Groq { api_key: k, model: String::from_str(GROQ_DEFAULT_MODEL) }),
        }
    } else {
        let mut msg = chars_of("Unknown LLM provider: ");
        push_str(&mut msg, n.as_str());
        push_str(&mut msg, ". Use 'groq'.");
        Err(string_of(&msg))
    }
}

/// The view of an optional string.
pub open spec fn opt_chars(o: Option<String>) -> Option<Seq<char>> {
    match o {
        Some(s) => Some(s@),
        None => None,
    }
}

} // verus!
