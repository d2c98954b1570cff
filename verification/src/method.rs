//! HTTP methods: their names, and how a method written in a request is read.
use vstd::prelude::*;
use crate::text::ascii_upper;

verus! {

broadcast use vstd::string::group_string_axioms;

/// HTTP method for mock matching.
#[derive(Debug, Clone, Copy, PartialEq, Eq, Structural)]
pub enum Method {
    /// HTTP GET
    GET,
    /// HTTP POST
    POST,
    /// HTTP PUT
    PUT,
    /// HTTP DELETE
    DELETE,
    /// HTTP PATCH
    PATCH,
    /// HTTP HEAD
    HEAD,
    /// HTTP OPTIONS
    OPTIONS,
}

/// The name of a method, as written in a request line.
pub open spec fn method_name(m: Method) -> Seq<char> {
    match m {
        Method::GET => "GET"@,
        Method::POST => "POST"@,
        Method::PUT => "PUT"@,
        Method::DELETE => "DELETE"@,
        Method::PATCH => "PATCH"@,
        Method::HEAD => "HEAD"@,
        Method::OPTIONS => "OPTIONS"@,
    }
}

/// The method whose name is exactly `name`, if there is one.
pub open spec fn method_named(name: Seq<char>) -> Option<Method> {
    if name == "GET"@ {
        Some(Method::GET)
    } else if name == "POST"@ {
        Some(Method::POST)
    } else if name == "PUT"@ {
        Some(Method::PUT)
    } else if name == "DELETE"@ {
        Some(Method::DELETE)
    } else if name == "PATCH"@ {
        Some(Method::PATCH)
    } else if name == "HEAD"@ {
        Some(Method::HEAD)
    } else if name == "OPTIONS"@ {
        Some(Method::OPTIONS)
    } else {
        None
    }
}

/// The message of the error for an upper-cased name that names no method.
pub open spec fn unknown_method_message(upper: Seq<char>) -> Seq<char> {
    "Unknown HTTP method: "@ + upper
}

/// What reading an upper-cased method name gives: the method, or the error
/// message.
pub open spec fn read_upper_name(upper: Seq<char>) -> Result<Method, Seq<char>> {
    match method_named(upper) {
        Some(m) => Ok(m),
        None => Err(unknown_method_message(upper)),
    }
}

/// A method, or an error message, by their character sequences.
pub open spec fn parse_result_view(r: Result<Method, String>) -> Result<Method, Seq<char>> {
    match r {
        Ok(m) => Ok(m),
        Err(e) => Err(e@),
    }
}

/// What `str::to_uppercase` makes of a text.
pub uninterp spec fn uppercase(s: Seq<char>) -> Seq<char>;

/// `str::to_uppercase`: the upper-case equivalent under Unicode's case
/// mapping. The contract names the result and states the documented ASCII
/// case: on an ASCII text only the letters `a`..`z` change, to `A`..`Z`.
#[verifier::external_body]
fn to_uppercase(s: &str) -> (r: String)
    ensures
        r@ == uppercase(s@),
        vstd::utf8::is_ascii_chars(s@) ==> r@ == ascii_upper(s@),
{
    s.to_uppercase()
}

impl Method {
    /// The name of the method (what `Display` writes in the original API).
    pub fn as_str(&self) -> (s: &'static str)
        ensures
            s@ == method_name(*self),
    {
        match self {
            Method::GET => "GET",
            Method::POST => "POST",
            Method::PUT => "PUT",
            Method::DELETE => "DELETE",
            Method::PATCH => "PATCH",
            Method::HEAD => "HEAD",
            Method::OPTIONS => "OPTIONS",
        }
    }

    /// Read an already upper-cased method name.
    pub fn from_upper_name(upper: &String) -> (r: Result<Method, String>)
        ensures
            parse_result_view(r) == read_upper_name(upper@),
    {
        if *upper == String::from_str("GET") {
            Ok(Method::GET)
        } else if *upper == String::from_str("POST") {
            Ok(Method::POST)
        } else if *upper == String::from_str("PUT") {
            Ok(Method::PUT)
        } else if *upper == String::from_str("DELETE") {
            Ok(Method::DELETE)
        } else if *upper == String::from_str("PATCH") {
            Ok(Method::PATCH)
        } else if *upper == String::from_str("HEAD") {
            Ok(Method::HEAD)
        } else if *upper == String::from_str("OPTIONS") {
            Ok(Method::OPTIONS)
        } else {
            Err(String::from_str("Unknown HTTP method: ").concat(upper.as_str()))
        }
    }

    /// Read a method name in any case: the name is upper-cased, then matched.
    pub fn parse(s: &str) -> (r: Result<Method, String>)
        ensures
            parse_result_view(r) == read_upper_name(uppercase(s@)),
            vstd::utf8::is_ascii_chars(s@) ==> parse_result_view(r) == read_upper_name(
                ascii_upper(s@),
            ),
    {
        let upper = to_uppercase(s);
        Method::from_upper_name(&upper)
    }
}

impl std::str::FromStr for Method {
    type Err = String;

    fn from_str(s: &str) -> (r: Result<Method, String>)
        ensures
            parse_result_view(r) == read_upper_name(uppercase(s@)),
            vstd::utf8::is_ascii_chars(s@) ==> parse_result_view(r) == read_upper_name(
                ascii_upper(s@),
            ),
    {
        Method::parse(s)
    }
}

} // verus!
