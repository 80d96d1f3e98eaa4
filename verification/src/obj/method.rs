use crate::text::{chars_eq_str, lemma_trim_ws_free, str_to_chars, trim, trim_vec, ws_free};
use vstd::prelude::*;

verus! {

/// The request methods of the HTTP registry.
#[derive(Debug, Clone, Copy, PartialEq, Eq, Structural)]
pub enum Method {
    Get,
    Head,
    Options,
    Trace,
    Put,
    Delete,
    Post,
    Patch,
    Connect,
}

/// The wire token of a method.
pub open spec fn spec_method_str(m: Method) -> Seq<char> {
    match m {
        Method::Get => "GET"@,
        Method::Head => "HEAD"@,
        Method::Options => "OPTIONS"@,
        Method::Trace => "TRACE"@,
        Method::Put => "PUT"@,
        Method::Delete => "DELETE"@,
        Method::Post => "POST"@,
        Method::Patch => "PATCH"@,
        Method::Connect => "CONNECT"@,
    }
}

/// The method a token names, after trimming surrounding whitespace:
/// matching is exact and case-sensitive.
pub open spec fn spec_method_from_token(s: Seq<char>) -> Option<Method> {
    let t = trim(s);
    if t == "GET"@ {
        Some(Method::Get)
    } else if t == "HEAD"@ {
        Some(Method::Head)
    } else if t == "OPTIONS"@ {
        Some(Method::Options)
    } else if t == "TRACE"@ {
        Some(Method::Trace)
    } else if t == "PUT"@ {
        Some(Method::Put)
    } else if t == "DELETE"@ {
        Some(Method::Delete)
    } else if t == "POST"@ {
        Some(Method::Post)
    } else if t == "PATCH"@ {
        Some(Method::Patch)
    } else if t == "CONNECT"@ {
        Some(Method::Connect)
    } else {
        None
    }
}

impl Method {
    /// Match a trimmed token against the closed method vocabulary.
    pub fn try_from(s: &str) -> (r: Option<Method>)
        ensures
            r == spec_method_from_token(s@),
    {
        let chars = str_to_chars(s);
        let t = trim_vec(&chars);
        if chars_eq_str(&t, "GET") {
            Some(Method::Get)
        } else if chars_eq_str(&t, "HEAD") {
            Some(Method::Head)
        } else if chars_eq_str(&t, "OPTIONS") {
            Some(Method::Options)
        } else if chars_eq_str(&t, "TRACE") {
            Some(Method::Trace)
        } else if chars_eq_str(&t, "PUT") {
            Some(Method::Put)
        } else if chars_eq_str(&t, "DELETE") {
            Some(Method::Delete)
        } else if chars_eq_str(&t, "POST") {
            Some(Method::Post)
        } else if chars_eq_str(&t, "PATCH") {
            Some(Method::Patch)
        } else if chars_eq_str(&t, "CONNECT") {
            Some(Method::Connect)
        } else {
            None
        }
    }

    /// The wire token, e.g. `"GET"`.
    pub fn to_string(&self) -> (r: String)
        ensures
            r@ == spec_method_str(*self),
    {
        match self {
            Method::Get => String::from_str("GET"),
            Method::Head => String::from_str("HEAD"),
            Method::Options => String::from_str("OPTIONS"),
            Method::Trace => String::from_str("TRACE"),
            Method::Put => String::from_str("PUT"),
            Method::Delete => String::from_str("DELETE"),
            Method::Post => String::from_str("POST"),
            Method::Patch => String::from_str("PATCH"),
            Method::Connect => String::from_str("CONNECT"),
        }
    }
}


/// Every method token is a nonempty, whitespace-free word that maps back to
/// its own method.
pub proof fn lemma_method_token(m: Method)
    ensures
        spec_method_str(m).len() >= 1,
        ws_free(spec_method_str(m)),
        spec_method_from_token(spec_method_str(m)) == Some(m),
{
    reveal_strlit("GET");
    reveal_strlit("HEAD");
    reveal_strlit("OPTIONS");
    reveal_strlit("TRACE");
    reveal_strlit("PUT");
    reveal_strlit("DELETE");
    reveal_strlit("POST");
    reveal_strlit("PATCH");
    reveal_strlit("CONNECT");
    assert(ws_free(spec_method_str(m)));
    lemma_trim_ws_free(spec_method_str(m));
}

} // verus!
