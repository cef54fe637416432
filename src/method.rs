//! Request methods and their names.
use vstd::prelude::*;

use crate::error::ParseError;

verus! {

/// The request methods of HTTP/1.1.
#[derive(Debug, Clone, Copy, PartialEq, Eq, Structural)]
pub enum HttpMethod {
    OPTIONS,
    GET,
    HEAD,
    POST,
    PUT,
    DELETE,
    TRACE,
    CONNECT,
    PATCH,
}

/// The name of a method, as it stands in a request line.
pub open spec fn method_name(m: HttpMethod) -> Seq<char> {
    match m {
        HttpMethod::OPTIONS => "OPTIONS"@,
        HttpMethod::GET => "GET"@,
        HttpMethod::HEAD => "HEAD"@,
        HttpMethod::POST => "POST"@,
        HttpMethod::PUT => "PUT"@,
        HttpMethod::DELETE => "DELETE"@,
        HttpMethod::TRACE => "TRACE"@,
        HttpMethod::CONNECT => "CONNECT"@,
        HttpMethod::PATCH => "PATCH"@,
    }
}

/// The method that a text names exactly (case-sensitively), if any.
pub open spec fn method_of_text(s: Seq<char>) -> Option<HttpMethod> {
    if s == "OPTIONS"@ {
        Some(HttpMethod::OPTIONS)
    } else if s == "GET"@ {
        Some(HttpMethod::GET)
    } else if s == "HEAD"@ {
        Some(HttpMethod::HEAD)
    } else if s == "POST"@ {
        Some(HttpMethod::POST)
    } else if s == "PUT"@ {
        Some(HttpMethod::PUT)
    } else if s == "DELETE"@ {
        Some(HttpMethod::DELETE)
    } else if s == "TRACE"@ {
        Some(HttpMethod::TRACE)
    } else if s == "CONNECT"@ {
        Some(HttpMethod::CONNECT)
    } else if s == "PATCH"@ {
        Some(HttpMethod::PATCH)
    } else {
        None
    }
}

/// The methods whose requests carry a body.
pub open spec fn is_bodied(m: HttpMethod) -> bool {
    m == HttpMethod::POST || m == HttpMethod::PUT || m == HttpMethod::PATCH
}

/// Whether two texts hold the same characters.
fn same_text(a: &str, b: &str) -> (r: bool)
    ensures
        r == (a@ == b@),
{
    let n = a.unicode_len();
    if n != b.unicode_len() {
        return false;
    }
    let mut i: usize = 0;
    while i < n
        invariant
            n == a@.len(),
            n == b@.len(),
            i <= n,
            forall|k: int| 0 <= k < i ==> a@[k] == b@[k],
        decreases n - i,
    {
        if a.get_char(i) != b.get_char(i) {
            return false;
        }
        i = i + 1;
    }
    assert(a@ == b@);
    true
}

impl HttpMethod {
    /// The method's name.
    pub fn as_str(&self) -> (r: &'static str)
        ensures
            r@ == method_name(*self),
    {
        match self {
            HttpMethod::OPTIONS => "OPTIONS",
            HttpMethod::GET => "GET",
            HttpMethod::HEAD => "HEAD",
            HttpMethod::POST => "POST",
            HttpMethod::PUT => "PUT",
            HttpMethod::DELETE => "DELETE",
            HttpMethod::TRACE => "TRACE",
            HttpMethod::CONNECT => "CONNECT",
            HttpMethod::PATCH => "PATCH",
        }
    }

    /// The method that `value` names exactly; any other text is an unknown
    /// method.
    pub fn try_from(value: &str) -> (r: Result<HttpMethod, ParseError>)
        ensures
            match method_of_text(value@) {
                Some(m) => r == Ok::<HttpMethod, ParseError>(m),
                None => r == Err::<HttpMethod, ParseError>(ParseError::UnknownMethod),
            },
    {
        if same_text(value, "OPTIONS") {
            Ok(HttpMethod::OPTIONS)
        } else if same_text(value, "GET") {
            Ok(HttpMethod::GET)
        } else if same_text(value, "HEAD") {
            Ok(HttpMethod::HEAD)
        } else if same_text(value, "POST") {
            Ok(HttpMethod::POST)
        } else if same_text(value, "PUT") {
            Ok(HttpMethod::PUT)
        } else if same_text(value, "DELETE") {
            Ok(HttpMethod::DELETE)
        } else if same_text(value, "TRACE") {
            Ok(HttpMethod::TRACE)
        } else if same_text(value, "CONNECT") {
            Ok(HttpMethod::CONNECT)
        } else if same_text(value, "PATCH") {
            Ok(HttpMethod::PATCH)
        } else {
            Err(ParseError::UnknownMethod)
        }
    }

    /// Whether requests of this method carry a body.
    pub fn is_bodied(&self) -> (r: bool)
        ensures
            r == is_bodied(*self),
    {
        match self {
            HttpMethod::POST | HttpMethod::PUT | HttpMethod::PATCH => true,
            _ => false,
        }
    }
}

/// Reading a method's name back gives the method again.
pub proof fn lemma_method_name_round_trip(m: HttpMethod)
    ensures
        method_of_text(method_name(m)) == Some(m),
{
    reveal_strlit("OPTIONS");
    reveal_strlit("GET");
    reveal_strlit("HEAD");
    reveal_strlit("POST");
    reveal_strlit("PUT");
    reveal_strlit("DELETE");
    reveal_strlit("TRACE");
    reveal_strlit("CONNECT");
    reveal_strlit("PATCH");
    assert("OPTIONS"@.len() == 7 && "OPTIONS"@[0] == 'O' && "OPTIONS"@[1] == 'P');
    assert("GET"@.len() == 3 && "GET"@[0] == 'G' && "GET"@[1] == 'E');
    assert("HEAD"@.len() == 4 && "HEAD"@[0] == 'H' && "HEAD"@[1] == 'E');
    assert("POST"@.len() == 4 && "POST"@[0] == 'P' && "POST"@[1] == 'O');
    assert("PUT"@.len() == 3 && "PUT"@[0] == 'P' && "PUT"@[1] == 'U');
    assert("DELETE"@.len() == 6 && "DELETE"@[0] == 'D' && "DELETE"@[1] == 'E');
    assert("TRACE"@.len() == 5 && "TRACE"@[0] == 'T' && "TRACE"@[1] == 'R');
    assert("CONNECT"@.len() == 7 && "CONNECT"@[0] == 'C' && "CONNECT"@[1] == 'O');
    assert("PATCH"@.len() == 5 && "PATCH"@[0] == 'P' && "PATCH"@[1] == 'A');
}

} // verus!
