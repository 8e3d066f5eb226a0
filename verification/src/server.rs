//! The server's own part in a response: its address, its name, the last changes that a
//! response gets before it is sent, and the line that is logged for it.
use crate::http::{HttpMethod, HttpStatus};
use crate::request::request_text;
use crate::response::{Response, ResponseView};
use crate::text::{before, chars_of, decimal, find_char, pairs, push_decimal, text_of};
use crate::utils::{rfc_1123_text, Utils};
use vstd::prelude::*;
use vstd::string::*;
use vstd::utf8::encode_utf8;

verus! {

/// Where the server listens and what it serves.
#[derive(Debug, Clone, PartialEq, Eq)]
pub struct Config {
    pub host: String,
    pub port: u16,
    pub root_dir: String,
}

/// The page templates that were loaded at start, each under its name.
#[derive(Debug, Clone, PartialEq, Eq)]
pub struct Templates {
    pub pages: Vec<(String, String)>,
}

/// The state that every connection shares: it is read, never changed.
#[derive(Debug, Clone)]
pub struct Server {
    config: Config,
    templates: Templates,
}

/// The name and version that the server gives in its `Server` header.
pub open spec fn server_banner() -> Seq<char> {
    "Katana"@ + " "@ + "0.1.0"@
}

/// Whether `date` is what the clock can give: a date in the format of RFC 1123, or nothing.
pub open spec fn is_clock_date(date: Seq<char>) -> bool {
    date.len() == 0 || exists|secs: u64| date == rfc_1123_text(secs as nat)
}

/// The response as it is sent: changed as the method asks, then signed with the `Server`
/// header.
pub open spec fn finished(response: ResponseView, method: HttpMethod, date: Seq<char>) -> ResponseView {
    let changed = response.for_method(method, date);
    changed.answering(
        changed.status,
        changed.headers.push(("Server"@, server_banner())),
        changed.body,
    )
}

/// The first line of a text, as `str::lines` gives it: what stands before the first line
/// feed, without a carriage return at its end.
pub open spec fn first_text_line(text: Seq<char>) -> Seq<char> {
    let line = before(text, '\n');
    if line.len() > 0 && line.last() == '\r' {
        line.drop_last()
    } else {
        line
    }
}

/// The line that is logged for a response: the request line in quotes, the status code,
/// and the size of the body in bytes.
pub open spec fn log_line(response: ResponseView) -> Seq<char> {
    "\""@ + first_text_line(request_text(response.request)) + "\" "@ + decimal(
        response.status.code(),
    ) + " "@ + decimal(response.body.len())
}

/// A request with a method that the server does not support is answered 405, with the
/// supported methods in the `Allow` header and without a body, whatever was found at its
/// path.
pub proof fn lemma_unsupported_method_is_refused(response: ResponseView, method: HttpMethod, date: Seq<char>)
    requires
        !method.is_supported(),
    ensures
        finished(response, method, date).status == HttpStatus::MethodNotAllowed,
        finished(response, method, date).headers == seq![
            ("Allow"@, "GET, HEAD, OPTIONS, TRACE"@),
            ("Server"@, server_banner()),
        ],
        finished(response, method, date).body == Seq::<u8>::empty(),
{
}

/// `TRACE` is answered 200 with the request as body, of content type `message/http`,
/// whatever was found at its path.
pub proof fn lemma_trace_echoes_request(response: ResponseView, date: Seq<char>)
    ensures
        finished(response, HttpMethod::Trace, date).status == HttpStatus::Success,
        finished(response, HttpMethod::Trace, date).headers[0] == (
            "Content-Type"@,
            "message/http"@,
        ),
        finished(response, HttpMethod::Trace, date).body == encode_utf8(
            "\r\n"@ + request_text(response.request),
        ),
{
}

impl Server {
    /// The configuration that the server was made with.
    pub closed spec fn config(&self) -> Config {
        self.config
    }

    /// The templates that the server was made with.
    pub closed spec fn templates(&self) -> Templates {
        self.templates
    }

    /// A server with this configuration and these templates.
    pub fn new(config: Config, templates: Templates) -> (server: Self)
        ensures
            server.config() == config,
            server.templates() == templates,
    {
        Self { config, templates }
    }

    /// The directory that is served.
    pub fn root_dir(&self) -> (root: &str)
        ensures
            root@ == self.config().root_dir@,
    {
        self.config.root_dir.as_str()
    }

    /// The address to listen on: host and port with a colon between them.
    pub fn addr(&self) -> (out: String)
        ensures
            out@ == self.config().host@ + ":"@ + decimal(self.config().port as nat),
    {
        let mut out = self.config.host.clone();
        out.append(":");
        push_decimal(&mut out, self.config.port as u64);
        out
    }

    /// The address as a URL.
    pub fn addr_with_protocol(&self) -> (out: String)
        ensures
            out@ == "http://"@ + (self.config().host@ + ":"@ + decimal(self.config().port as nat)),
    {
        let mut out = String::from_str("http://");
        out.append(self.addr().as_str());
        out
    }

    /// The name and version of the server.
    pub fn version() -> (out: String)
        ensures
            out@ == server_banner(),
    {
        let mut out = String::from_str("Katana");
        out.append(" ");
        out.append("0.1.0");
        out
    }

    /// Gives a response its final form: it is changed as the method of its request asks,
    /// and the `Server` header is added at the end. Only the answer to `OPTIONS` reads the
    /// clock, for its `Date` header.
    pub fn server_transformation(&self, response: &mut Response)
        ensures
            final(response).request == old(response).request,
            exists|date: Seq<char>|
                is_clock_date(date) && final(response)@ == #[trigger] finished(
                    old(response)@,
                    old(response).request.method,
                    date,
                ),
            !(old(response).request.method is Options) ==> final(response)@ == finished(
                old(response)@,
                old(response).request.method,
                Seq::empty(),
            ),
            !old(response).request.method.is_supported() ==> final(response).status_code
                == HttpStatus::MethodNotAllowed && final(response).body@.len() == 0 && pairs(
                final(response).headers@,
            ) == seq![("Allow"@, "GET, HEAD, OPTIONS, TRACE"@), ("Server"@, server_banner())],
            old(response).request.method is Trace ==> final(response).status_code
                == HttpStatus::Success && pairs(final(response).headers@)[0] == (
                "Content-Type"@,
                "message/http"@,
            ) && final(response).body@ == encode_utf8(
                "\r\n"@ + request_text(old(response).request@),
            ),
    {
        proof {
            if !response.request.method.is_supported() {
                lemma_unsupported_method_is_refused(
                    response@,
                    response.request.method,
                    Seq::empty(),
                );
            }
            lemma_trace_echoes_request(response@, Seq::empty());
        }
        let date = match &response.request.method {
            HttpMethod::Options => Utils::datetime_rfc_1123(),
            _ => String::new(),
        };
        response.apply_method(date.as_str());
        let ghost changed = response@;
        response.headers.push((String::from_str("Server"), Self::version()));
        proof {
            assert(response@.headers == changed.headers.push(("Server"@, server_banner())));
            assert(response@ == finished(old(response)@, old(response).request.method, date@));
            assert(is_clock_date(date@));
        }
    }

    /// The line to log for a response that was sent.
    pub fn log_response(response: &Response) -> (out: String)
        ensures
            out@ == log_line(response@),
    {
        let text = chars_of(response.request.to_string().as_str());
        let n: usize = text.len();
        assert(text@.subrange(0, n as int) == text@);
        let end = find_char(&text, 0, n, '\n');
        let stop: usize = if end > 0 && text[end - 1] == '\r' {
            end - 1
        } else {
            end
        };
        assert(first_text_line(text@) == text@.subrange(0, stop as int)) by {
            assert(before(text@, '\n') == text@.subrange(0, end as int));
        }
        let mut out = String::from_str("\"");
        out.append(text_of(&text, 0, stop).as_str());
        out.append("\" ");
        push_decimal(&mut out, response.status_code.to_code() as u64);
        out.append(" ");
        push_decimal(&mut out, response.body.len() as u64);
        out
    }
}

} // verus!
