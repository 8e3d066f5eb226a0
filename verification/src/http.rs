//! The vocabulary of the protocol: versions, status codes and request methods.
use crate::text::{chars_of, same_chars, text_of_all};
use vstd::prelude::*;
use vstd::string::*;

verus! {

/// The protocol versions that a request line may name.
#[derive(Debug, Clone, Copy, PartialEq, Eq)]
pub enum HttpVersion {
    Http10,
    Http11,
}

/// The status codes that the server answers with.
#[derive(Debug, Clone, Copy, PartialEq, Eq)]
pub enum HttpStatus {
    Success,
    Forbidden,
    NotFound,
    MethodNotAllowed,
    InternalServerError,
}

/// A request method: the four that the server supports, and any other verb as received.
#[derive(Debug, Clone, PartialEq, Eq)]
pub enum HttpMethod {
    Get,
    Head,
    Options,
    Trace,
    Other(String),
}

/// The methods that the server supports, as the `Allow` header lists them.
pub open spec fn allowed_methods() -> Seq<char> {
    "GET, HEAD, OPTIONS, TRACE"@
}

impl HttpVersion {
    /// The version as the wire names it.
    pub open spec fn text(self) -> Seq<char> {
        match self {
            HttpVersion::Http10 => "HTTP/1.0"@,
            HttpVersion::Http11 => "HTTP/1.1"@,
        }
    }

    /// The version that `token` names, if it names one.
    pub open spec fn named(token: Seq<char>) -> Option<HttpVersion> {
        if token == "HTTP/1.1"@ {
            Some(HttpVersion::Http11)
        } else if token == "HTTP/1.0"@ {
            Some(HttpVersion::Http10)
        } else {
            None
        }
    }

    /// The version as the wire names it.
    pub fn as_str(&self) -> (name: &'static str)
        ensures
            name@ == self.text(),
    {
        match self {
            HttpVersion::Http10 => "HTTP/1.0",
            HttpVersion::Http11 => "HTTP/1.1",
        }
    }

    /// Reads a version token of a request line.
    pub fn from_token(token: &Vec<char>) -> (version: Option<HttpVersion>)
        ensures
            version == Self::named(token@),
    {
        if same_chars(token, &chars_of("HTTP/1.1")) {
            Some(HttpVersion::Http11)
        } else if same_chars(token, &chars_of("HTTP/1.0")) {
            Some(HttpVersion::Http10)
        } else {
            None
        }
    }
}

impl HttpStatus {
    /// The numeric code.
    pub open spec fn code(self) -> nat {
        match self {
            HttpStatus::Success => 200,
            HttpStatus::Forbidden => 403,
            HttpStatus::NotFound => 404,
            HttpStatus::MethodNotAllowed => 405,
            HttpStatus::InternalServerError => 500,
        }
    }

    /// The reason phrase.
    pub open spec fn reason(self) -> Seq<char> {
        match self {
            HttpStatus::Success => "OK"@,
            HttpStatus::Forbidden => "Forbidden"@,
            HttpStatus::NotFound => "Not Found"@,
            HttpStatus::MethodNotAllowed => "Method Not Allowed"@,
            HttpStatus::InternalServerError => "Internal Server Error"@,
        }
    }

    /// Whether the status reports a failure.
    pub open spec fn is_error(self) -> bool {
        self != HttpStatus::Success
    }

    /// The numeric code.
    pub fn to_code(&self) -> (code: u16)
        ensures
            code == self.code(),
    {
        match self {
            HttpStatus::Success => 200,
            HttpStatus::Forbidden => 403,
            HttpStatus::NotFound => 404,
            HttpStatus::MethodNotAllowed => 405,
            HttpStatus::InternalServerError => 500,
        }
    }

    /// The reason phrase.
    pub fn to_message(&self) -> (phrase: &'static str)
        ensures
            phrase@ == self.reason(),
    {
        match self {
            HttpStatus::Success => "OK",
            HttpStatus::Forbidden => "Forbidden",
            HttpStatus::NotFound => "Not Found",
            HttpStatus::MethodNotAllowed => "Method Not Allowed",
            HttpStatus::InternalServerError => "Internal Server Error",
        }
    }
}

impl HttpMethod {
    /// The verb as the wire names it.
    pub open spec fn name(self) -> Seq<char> {
        match self {
            HttpMethod::Get => "GET"@,
            HttpMethod::Head => "HEAD"@,
            HttpMethod::Options => "OPTIONS"@,
            HttpMethod::Trace => "TRACE"@,
            HttpMethod::Other(verb) => verb@,
        }
    }

    /// Whether the server supports the method.
    pub open spec fn is_supported(self) -> bool {
        !(self is Other)
    }

    /// The method that `token` names: one of the four supported ones, or the verb kept
    /// as it came.
    pub open spec fn names(self, token: Seq<char>) -> bool {
        if token == "GET"@ {
            self is Get
        } else if token == "HEAD"@ {
            self is Head
        } else if token == "OPTIONS"@ {
            self is Options
        } else if token == "TRACE"@ {
            self is Trace
        } else {
            self matches HttpMethod::Other(verb) && verb@ == token
        }
    }

    /// The verb as the wire names it.
    pub fn to_text(&self) -> (out: String)
        ensures
            out@ == self.name(),
    {
        match self {
            HttpMethod::Get => String::from_str("GET"),
            HttpMethod::Head => String::from_str("HEAD"),
            HttpMethod::Options => String::from_str("OPTIONS"),
            HttpMethod::Trace => String::from_str("TRACE"),
            HttpMethod::Other(verb) => verb.clone(),
        }
    }

    /// Reads the method token of a request line. Verbs are case-sensitive; an unknown one
    /// is kept and refused later.
    pub fn from_token(token: &Vec<char>) -> (method: HttpMethod)
        ensures
            method.names(token@),
    {
        if same_chars(token, &chars_of("GET")) {
            HttpMethod::Get
        } else if same_chars(token, &chars_of("HEAD")) {
            HttpMethod::Head
        } else if same_chars(token, &chars_of("OPTIONS")) {
            HttpMethod::Options
        } else if same_chars(token, &chars_of("TRACE")) {
            HttpMethod::Trace
        } else {
            HttpMethod::Other(text_of_all(token))
        }
    }
}

} // verus!
