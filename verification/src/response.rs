//! Responses: what is served for a request from what the file system holds, how the request
//! method changes it, and the bytes that go back over the wire.
use crate::filetype::{content_type_of, disposition_of, is_first_row_for, known_type, FileType};
use crate::http::{allowed_methods, HttpMethod, HttpStatus, HttpVersion};
use crate::path::{
    components, extension, extension_of, file_name, file_name_of, join, join_paths, last_position,
    lemma_file_name_of_joined, lemma_relative_of_entry, lemma_relative_of_resolved,
    lemma_resolved_stays_under_root, lemma_strip_slashes, relative_path, relative_to, resolve,
    starts_with_dot, stays_inside, strip_slashes, without_leading_slashes,
};
use crate::request::{request_text, Request, RequestView};
use crate::text::{
    bytes_of, chars_of, contains, contains_chars, decimal, decimal_text,
    lemma_contains_before_tail, lemma_contains_encoded, lemma_contains_in_end,
    lemma_contains_middle, pairs, push_bytes, same_chars, starts_with, text_of, text_of_all, trim,
    trimmed, triples,
};
use crate::utils::{listed, FoundEntry, Utils};
use vstd::prelude::*;
use vstd::string::*;
use vstd::utf8::encode_utf8;

verus! {

/// The answer to one request.
#[derive(Debug, Clone, PartialEq, Eq)]
pub struct Response {
    pub request: Request,
    pub http_version: HttpVersion,
    pub status_code: HttpStatus,
    pub headers: Vec<(String, String)>,
    pub cookies: Vec<(String, String)>,
    pub body: Vec<u8>,
}

/// What a response holds, as mathematical values.
pub struct ResponseView {
    pub request: RequestView,
    pub version: HttpVersion,
    pub status: HttpStatus,
    pub headers: Seq<(Seq<char>, Seq<char>)>,
    pub cookies: Seq<(Seq<char>, Seq<char>)>,
    pub body: Seq<u8>,
}

/// What the file system holds at the path that a request resolves to.
#[derive(Debug, Clone, Copy, PartialEq, Eq)]
pub enum PathKind {
    /// A directory; `has_index` says whether `index.html` in it is a regular file.
    Directory { has_index: bool },
    /// A regular file.
    File,
    /// Neither.
    Missing,
}

/// What has to be read from the file system before the response can be completed.
#[derive(Debug, Clone, PartialEq, Eq)]
pub enum Fetch {
    /// Nothing: the response is complete.
    Nothing,
    /// The content of the file at this path, for `serve_file`.
    File(String),
    /// The entries of the directory at this path, for `serve_directory`.
    Listing(String),
}

/// What came of reading a file.
#[derive(Debug, Clone, PartialEq, Eq)]
pub enum FileRead {
    /// The whole content.
    Content(Vec<u8>),
    /// The file could not be opened or read.
    Failed,
}

/// What `serve` decides, as mathematical values.
pub enum Plan {
    Answer(HttpStatus),
    ReadFile(Seq<char>),
    ListDirectory(Seq<char>),
}

/// The name that exempts a path from the rule against hidden files.
pub open spec fn well_known() -> Seq<char> {
    ".well-known"@
}

/// Whether the file at `path` is hidden from clients: its path below `root` begins with a
/// dot and does not contain `.well-known`, or its name begins with a dot and is not
/// `.well-known`.
pub open spec fn file_is_hidden(root: Seq<char>, path: Seq<char>) -> bool {
    let below = relative_to(path, root);
    let name = file_name(path);
    ||| starts_with_dot(below) && !contains(below, well_known())
    ||| starts_with_dot(name) && name != well_known()
}

/// Whether the directory at `path` is hidden from clients: its path below `root` begins
/// with a dot.
pub open spec fn directory_is_hidden(root: Seq<char>, path: Seq<char>) -> bool {
    starts_with_dot(relative_to(path, root))
}

/// The path of the index file of a directory.
pub open spec fn index_path(directory: Seq<char>) -> Seq<char> {
    join(directory, "index.html"@)
}

/// What is to be done for a request for `request_path`, given what the file system holds
/// at the path that it resolves to below `root`.
pub open spec fn plan(root: Seq<char>, request_path: Seq<char>, kind: PathKind) -> Plan {
    let path = resolve(root, request_path);
    match kind {
        PathKind::Missing => Plan::Answer(HttpStatus::NotFound),
        PathKind::File => if file_is_hidden(root, path) {
            Plan::Answer(HttpStatus::Forbidden)
        } else {
            Plan::ReadFile(path)
        },
        PathKind::Directory { has_index } => if has_index {
            if file_is_hidden(root, index_path(path)) {
                Plan::Answer(HttpStatus::Forbidden)
            } else {
                Plan::ReadFile(index_path(path))
            }
        } else if directory_is_hidden(root, path) {
            Plan::Answer(HttpStatus::Forbidden)
        } else {
            Plan::ListDirectory(path)
        },
    }
}

/// The page that reports a failure, as text.
pub open spec fn error_page(status: HttpStatus) -> Seq<char> {
    "<html><body><h1>"@ + status.reason() + "</h1></body></html>"@
}

/// The headers of a page of HTML with this body.
pub open spec fn page_headers(body: Seq<u8>) -> Seq<(Seq<char>, Seq<char>)> {
    seq![("Content-Type"@, "text/html"@), ("Content-Length"@, decimal(body.len()))]
}

/// The headers of a file of this content type and content.
pub open spec fn file_headers(content_type: Seq<char>, body: Seq<u8>) -> Seq<
    (Seq<char>, Seq<char>),
> {
    seq![
        ("Content-Type"@, content_type),
        ("Content-Length"@, decimal(body.len())),
        ("Content-Disposition"@, disposition_of(content_type)),
    ]
}

/// Whether the entry is a directory.
pub open spec fn is_directory_entry(entry: (Seq<char>, Seq<char>, Seq<char>)) -> bool {
    entry.0 == "directory"@
}

/// Where the link of an entry leads: its path below the root, or its path as it is where
/// it does not begin with the root.
pub open spec fn link_target(path: Seq<char>, root: Seq<char>) -> Seq<char> {
    if root.is_prefix_of(path) {
        path.skip(root.len() as int)
    } else {
        path
    }
}

/// The list item of one entry: a link to it, labelled with its name.
pub open spec fn entry_item(root: Seq<char>, entry: (Seq<char>, Seq<char>, Seq<char>)) -> Seq<
    char,
> {
    "<li><a href='"@ + link_target(entry.2, root) + "'>"@ + entry.1 + "</a></li>"@
}

/// The list items of the directories among the entries, or of the others, in order.
pub open spec fn entry_items(
    root: Seq<char>,
    entries: Seq<(Seq<char>, Seq<char>, Seq<char>)>,
    directories: bool,
) -> Seq<char>
    decreases entries.len(),
{
    if entries.len() == 0 {
        Seq::empty()
    } else if is_directory_entry(entries.last()) == directories {
        entry_items(root, entries.drop_last(), directories) + entry_item(root, entries.last())
    } else {
        entry_items(root, entries.drop_last(), directories)
    }
}

/// The list item that links to the parent directory.
pub open spec fn parent_item() -> Seq<char> {
    "<li><a href='../'>..</a></li>"@
}

/// The list item that stands for a directory without entries.
pub open spec fn empty_item() -> Seq<char> {
    "<li><b>Empty Folder</b></li>"@
}

/// The items of a listing: the link to the parent unless the directory is the root, the
/// marker of an empty directory, then the directories and then the files.
pub open spec fn listing_items(
    shown: Seq<char>,
    root: Seq<char>,
    entries: Seq<(Seq<char>, Seq<char>, Seq<char>)>,
) -> Seq<char> {
    let parent = if shown != seq!['/'] {
        parent_item()
    } else {
        Seq::empty()
    };
    let marker = if entries.len() == 0 {
        empty_item()
    } else {
        Seq::empty()
    };
    parent + marker + entry_items(root, entries, true) + entry_items(root, entries, false)
}

/// The page that lists a directory, shown under the name `shown`.
pub open spec fn listing_page(
    shown: Seq<char>,
    root: Seq<char>,
    entries: Seq<(Seq<char>, Seq<char>, Seq<char>)>,
) -> Seq<char> {
    "<html><body><h1>Directory listing for "@ + shown + "</h1><ul>"@ + listing_items(
        shown,
        root,
        entries,
    ) + "</ul></body></html>"@
}

/// The status line.
pub open spec fn status_line(version: HttpVersion, status: HttpStatus) -> Seq<char> {
    version.text() + " "@ + decimal(status.code()) + " "@ + status.reason() + "\r\n"@
}

/// One line `name: value` for each header, name and value trimmed.
pub open spec fn header_lines(headers: Seq<(Seq<char>, Seq<char>)>) -> Seq<char>
    decreases headers.len(),
{
    if headers.len() == 0 {
        Seq::empty()
    } else {
        header_lines(headers.drop_last()) + trim(headers.last().0) + ": "@ + trim(
            headers.last().1,
        ) + "\r\n"@
    }
}

/// One line `Set-Cookie: name=value` for each cookie, name and value trimmed.
pub open spec fn cookie_lines(cookies: Seq<(Seq<char>, Seq<char>)>) -> Seq<char>
    decreases cookies.len(),
{
    if cookies.len() == 0 {
        Seq::empty()
    } else {
        cookie_lines(cookies.drop_last()) + "Set-Cookie: "@ + trim(cookies.last().0) + "="@ + trim(
            cookies.last().1,
        ) + "\r\n"@
    }
}

/// The head of the response as text: status line, headers, cookies and an empty line.
pub open spec fn head_text(response: ResponseView) -> Seq<char> {
    status_line(response.version, response.status) + header_lines(response.headers) + cookie_lines(
        response.cookies,
    ) + "\r\n"@
}

/// The response as it goes over the wire: the head in UTF-8, then the body as it is.
pub open spec fn wire_bytes(response: ResponseView) -> Seq<u8> {
    encode_utf8(head_text(response)) + response.body
}

/// The headers that the answer to `OPTIONS` adds.
pub open spec fn options_headers(date: Seq<char>) -> Seq<(Seq<char>, Seq<char>)> {
    seq![
        ("Date"@, date),
        ("Allow"@, allowed_methods()),
        ("Access-Control-Allow-Origin"@, "*"@),
        ("Access-Control-Allow-Methods"@, allowed_methods()),
    ]
}

/// The text that answers `TRACE`: an empty line, then the request as text.
pub open spec fn trace_text(request: RequestView) -> Seq<char> {
    "\r\n"@ + request_text(request)
}

/// The headers of the answer to `TRACE` with this body.
pub open spec fn trace_headers(body: Seq<u8>) -> Seq<(Seq<char>, Seq<char>)> {
    seq![("Content-Type"@, "message/http"@), ("Content-Length"@, decimal(body.len()))]
}

impl ResponseView {
    /// The response with another status, other headers and another body.
    pub open spec fn answering(
        self,
        status: HttpStatus,
        headers: Seq<(Seq<char>, Seq<char>)>,
        body: Seq<u8>,
    ) -> ResponseView {
        ResponseView {
            request: self.request,
            version: self.version,
            status,
            headers,
            cookies: self.cookies,
            body,
        }
    }

    /// The response turned into the page of HTML with this text.
    pub open spec fn with_page(self, status: HttpStatus, page: Seq<char>) -> ResponseView {
        self.answering(status, page_headers(encode_utf8(page)), encode_utf8(page))
    }

    /// The response turned into the page that reports `status`.
    pub open spec fn failing(self, status: HttpStatus) -> ResponseView {
        self.with_page(status, error_page(status))
    }

    /// The response turned into the file of this path and content.
    pub open spec fn with_file(self, path: Seq<char>, content: Seq<u8>) -> ResponseView {
        self.answering(
            HttpStatus::Success,
            file_headers(content_type_of(extension(file_name(path))), content),
            content,
        )
    }

    /// Whether the response is a failure page or no failure at all.
    pub open spec fn is_settled(self) -> bool {
        self.status.is_error() ==> self.headers == page_headers(encode_utf8(error_page(self.status)))
            && self.body == encode_utf8(error_page(self.status))
    }

    /// The response as the method `method` of the request leaves it. `GET` changes nothing.
    /// `HEAD` drops the body and keeps the headers, so that `Content-Length` still gives
    /// the length of the body that `GET` would send. `OPTIONS` drops the body and adds its
    /// headers, with `date` as the date. `TRACE` answers 200 with the request as body.
    /// Any other method is answered 405 with the supported methods.
    pub open spec fn for_method(self, method: HttpMethod, date: Seq<char>) -> ResponseView {
        match method {
            HttpMethod::Get => self,
            HttpMethod::Head => self.answering(self.status, self.headers, Seq::empty()),
            HttpMethod::Options => self.answering(
                self.status,
                self.headers + options_headers(date),
                Seq::empty(),
            ),
            HttpMethod::Trace => self.answering(
                HttpStatus::Success,
                trace_headers(encode_utf8(trace_text(self.request))),
                encode_utf8(trace_text(self.request)),
            ),
            HttpMethod::Other(_) => self.answering(
                HttpStatus::MethodNotAllowed,
                seq![("Allow"@, allowed_methods())],
                Seq::empty(),
            ),
        }
    }
}

impl Fetch {
    /// Whether the fetch is what the plan asks for: nothing where the plan is an answer,
    /// else the path that the plan names.
    pub open spec fn is_plan(self, decided: Plan) -> bool {
        match decided {
            Plan::Answer(_) => self is Nothing,
            Plan::ReadFile(path) => self matches Fetch::File(text) && text@ == path,
            Plan::ListDirectory(path) => self matches Fetch::Listing(text) && text@ == path,
        }
    }
}

/// A header with this name and value.
fn field(name: &str, value: &str) -> (pair: (String, String))
    ensures
        pair.0@ == name@,
        pair.1@ == value@,
{
    (String::from_str(name), String::from_str(value))
}

/// The `Content-Length` header of this body.
fn length_field(body: &Vec<u8>) -> (pair: (String, String))
    ensures
        pair.0@ == "Content-Length"@,
        pair.1@ == decimal(body@.len()),
{
    (String::from_str("Content-Length"), decimal_text(body.len() as u64))
}

/// Whether the text begins with a dot.
fn begins_with_dot(chars: &Vec<char>) -> (r: bool)
    ensures
        r == starts_with_dot(chars@),
{
    chars.len() > 0 && chars[0] == '.'
}

/// Whether the file at `path` is hidden from clients.
fn hidden_file(root: &Vec<char>, path: &Vec<char>) -> (hidden: bool)
    ensures
        hidden == file_is_hidden(root@, path@),
{
    let below = relative_path(path, root);
    let name = file_name_of(path);
    let exempt = chars_of(".well-known");
    (begins_with_dot(&below) && !contains_chars(&below, &exempt)) || (begins_with_dot(&name)
        && !same_chars(&name, &exempt))
}

/// Whether the directory at `path` is hidden from clients.
fn hidden_directory(root: &Vec<char>, path: &Vec<char>) -> (hidden: bool)
    ensures
        hidden == directory_is_hidden(root@, path@),
{
    let below = relative_path(path, root);
    begins_with_dot(&below)
}

/// Appends the list items of the directories among the entries, or of the others.
fn push_entry_items(
    out: &mut String,
    root: &Vec<char>,
    entries: &Vec<(String, String, String)>,
    directories: bool,
)
    ensures
        final(out)@ == old(out)@ + entry_items(root@, triples(entries@), directories),
{
    let ghost start = out@;
    let kind = chars_of("directory");
    let mut i: usize = 0;
    assert(triples(entries@).take(0).len() == 0);
    assert(start + entry_items(root@, triples(entries@).take(0), directories) == start);
    while i < entries.len()
        invariant
            i <= entries.len(),
            kind@ == "directory"@,
            out@ == start + entry_items(root@, triples(entries@).take(i as int), directories),
        decreases entries.len() - i,
    {
        let ghost upto = triples(entries@).take(i + 1);
        let ghost entry = (entries@[i as int].0@, entries@[i as int].1@, entries@[i as int].2@);
        assert(upto.drop_last() == triples(entries@).take(i as int));
        assert(upto.last() == entry);
        let is_directory = same_chars(&chars_of(entries[i].0.as_str()), &kind);
        if is_directory == directories {
            let path = chars_of(entries[i].2.as_str());
            let target = if starts_with(&path, root) {
                assert(path@.skip(root.len() as int) == path@.subrange(
                    root.len() as int,
                    path.len() as int,
                ));
                text_of(&path, root.len(), path.len())
            } else {
                text_of_all(&path)
            };
            assert(target@ == link_target(entry.2, root@));
            out.append("<li><a href='");
            out.append(target.as_str());
            out.append("'>");
            out.append(entries[i].1.as_str());
            out.append("</a></li>");
            assert(out@ == start + entry_items(root@, upto, directories));
        }
        i += 1;
    }
    assert(triples(entries@).take(entries.len() as int) == triples(entries@));
}

/// A request for a path whose first segment begins with a dot, and which does not contain
/// `.well-known`, is answered 403 whatever the file system holds there: a file, or a
/// directory with or without an index.
pub proof fn lemma_hidden_path_is_forbidden(root: Seq<char>, request_path: Seq<char>, kind: PathKind)
    requires
        !(kind is Missing),
        starts_with_dot(strip_slashes(request_path)),
        !contains(request_path, well_known()),
    ensures
        plan(root, request_path, kind) == Plan::Answer(HttpStatus::Forbidden),
{
    let below = strip_slashes(request_path);
    let path = resolve(root, request_path);
    lemma_strip_slashes(request_path);
    lemma_relative_of_resolved(root, request_path);
    assert(!contains(below, well_known())) by {
        if contains(below, well_known()) {
            let k = choose|k: int| 0 <= k <= request_path.len() && below == #[trigger] request_path.skip(k);
            lemma_contains_in_end(request_path, k, well_known());
        }
    }
    match kind {
        PathKind::Directory { has_index } => {
            if has_index {
                reveal_strlit("index.html");
                reveal_strlit(".well-known");
                let index = "index.html"@;
                lemma_relative_of_entry(root, request_path, index);
                let inner = join(below, index);
                if contains(inner, well_known()) {
                    if below.last() == '/' {
                        assert(inner == below + index);
                        lemma_contains_before_tail(below, index, well_known());
                    } else {
                        assert(inner == below + (seq!['/'] + index));
                        lemma_contains_before_tail(below, seq!['/'] + index, well_known());
                    }
                }
            }
        },
        _ => {},
    }
}

/// A directory whose `index.html` is a regular file, and not hidden, is answered with that
/// file and not with a listing: the plan is to read the index, and the response that its
/// content gives has status 200, the content type of HTML, and the content as body.
pub proof fn lemma_index_is_served(
    root: Seq<char>,
    request_path: Seq<char>,
    content: Seq<u8>,
    response: ResponseView,
)
    requires
        !file_is_hidden(root, index_path(resolve(root, request_path))),
    ensures
        plan(root, request_path, PathKind::Directory { has_index: true }) == Plan::ReadFile(
            index_path(resolve(root, request_path)),
        ),
        response.with_file(index_path(resolve(root, request_path)), content).status
            == HttpStatus::Success,
        response.with_file(index_path(resolve(root, request_path)), content).headers[0] == (
            "Content-Type"@,
            "text/html"@,
        ),
        response.with_file(index_path(resolve(root, request_path)), content).body == content,
{
    reveal_strlit("index.html");
    reveal_strlit("html");
    let index = "index.html"@;
    lemma_file_name_of_joined(resolve(root, request_path), index);
    assert(extension(index) == "html"@) by {
        reveal_with_fuel(last_position, 6);
        assert(last_position(index, '.') == 5);
        assert(index.skip(6) == "html"@);
    }
    assert(is_first_row_for("html"@, 0));
    let chosen = choose|row: int| is_first_row_for("html"@, row);
    assert(chosen == 0) by {
        if chosen > 0 {
            assert(known_type(0).0 == "html"@);
        }
    }
    assert(known_type(0).0 == "html"@);
}

/// The listing of a directory without entries holds the marker of an empty directory.
pub proof fn lemma_empty_listing_is_marked(shown: Seq<char>, root: Seq<char>)
    ensures
        contains(listing_page(shown, root, Seq::empty()), empty_item()),
{
    let none = Seq::<(Seq<char>, Seq<char>, Seq<char>)>::empty();
    let parent = if shown != seq!['/'] {
        parent_item()
    } else {
        Seq::empty()
    };
    let before = "<html><body><h1>Directory listing for "@ + shown + "</h1><ul>"@ + parent;
    let after = "</ul></body></html>"@;
    assert(listing_page(shown, root, none) == before + empty_item() + after);
    lemma_contains_middle(before, empty_item(), after);
}

impl Response {
    /// The response as mathematical values.
    pub open spec fn view(&self) -> ResponseView {
        ResponseView {
            request: self.request@,
            version: self.http_version,
            status: self.status_code,
            headers: pairs(self.headers@),
            cookies: pairs(self.cookies@),
            body: self.body@,
        }
    }

    /// A response to `request` that is still empty: HTTP/1.1, status 200, no headers, no
    /// cookies, no body.
    pub fn new(request: Request) -> (response: Option<Self>)
        ensures
            response matches Some(fresh) && fresh.request == request && fresh@ == (ResponseView {
                request: request@,
                version: HttpVersion::Http11,
                status: HttpStatus::Success,
                headers: Seq::empty(),
                cookies: Seq::empty(),
                body: Seq::empty(),
            }),
            response matches Some(fresh) && fresh@.is_settled(),
    {
        let response = Self {
            request,
            http_version: HttpVersion::Http11,
            status_code: HttpStatus::Success,
            headers: Vec::new(),
            cookies: Vec::new(),
            body: Vec::new(),
        };
        assert(pairs(response.headers@) == Seq::<(Seq<char>, Seq<char>)>::empty());
        assert(pairs(response.cookies@) == Seq::<(Seq<char>, Seq<char>)>::empty());
        Some(response)
    }

    /// The path in the file system that the request stands for: the request path, without
    /// its leading slashes, below `root_dir`.
    pub fn file_path(&self, root_dir: &str) -> (path: String)
        ensures
            path@ == resolve(root_dir@, self.request.path@),
            stays_inside(strip_slashes(self.request.path@)) ==> components(root_dir@).is_prefix_of(
                components(path@),
            ),
    {
        proof {
            if stays_inside(strip_slashes(self.request.path@)) {
                lemma_resolved_stays_under_root(root_dir@, self.request.path@);
            }
        }
        let below = without_leading_slashes(&chars_of(self.request.path.as_str()));
        text_of_all(&join_paths(&chars_of(root_dir), &below))
    }

    /// Decides what is served, from what the file system holds at `file_path(root_dir)`.
    /// A missing path is answered 404 and a hidden one 403, both at once. Otherwise the
    /// response is left as it is and the result names what to read: the file, the index
    /// file of the directory, or the entries of the directory.
    pub fn serve(&mut self, root_dir: &str, kind: PathKind) -> (fetch: Fetch)
        ensures
            fetch.is_plan(plan(root_dir@, old(self).request.path@, kind)),
            final(self).request == old(self).request,
            final(self)@ == (match plan(root_dir@, old(self).request.path@, kind) {
                Plan::Answer(status) => old(self)@.failing(status),
                _ => old(self)@,
            }),
            old(self)@.is_settled() ==> final(self)@.is_settled(),
            !(kind is Missing) && starts_with_dot(strip_slashes(old(self).request.path@)) && !contains(
                old(self).request.path@,
                well_known(),
            ) ==> fetch is Nothing && final(self).status_code == HttpStatus::Forbidden,
    {
        proof {
            if !(kind is Missing) && starts_with_dot(strip_slashes(self.request.path@)) && !contains(
                self.request.path@,
                well_known(),
            ) {
                lemma_hidden_path_is_forbidden(root_dir@, self.request.path@, kind);
            }
        }
        let root = chars_of(root_dir);
        let below = without_leading_slashes(&chars_of(self.request.path.as_str()));
        let path = join_paths(&root, &below);
        match kind {
            PathKind::Missing => {
                self.serve_error_response(HttpStatus::NotFound);
                Fetch::Nothing
            },
            PathKind::File => {
                if hidden_file(&root, &path) {
                    self.serve_error_response(HttpStatus::Forbidden);
                    Fetch::Nothing
                } else {
                    Fetch::File(text_of_all(&path))
                }
            },
            PathKind::Directory { has_index } => {
                if has_index {
                    let index = join_paths(&path, &chars_of("index.html"));
                    if hidden_file(&root, &index) {
                        self.serve_error_response(HttpStatus::Forbidden);
                        Fetch::Nothing
                    } else {
                        Fetch::File(text_of_all(&index))
                    }
                } else if hidden_directory(&root, &path) {
                    self.serve_error_response(HttpStatus::Forbidden);
                    Fetch::Nothing
                } else {
                    Fetch::Listing(text_of_all(&path))
                }
            },
        }
    }

    /// Completes the response with a file: 403 where the file at `path` is hidden, 500
    /// where it could not be read, else 200 with the content as body and the headers that
    /// give its type, its length in bytes and its disposition.
    pub fn serve_file(&mut self, root_dir: &str, path: &str, read: FileRead)
        ensures
            final(self).request == old(self).request,
            final(self)@ == (if file_is_hidden(root_dir@, path@) {
                old(self)@.failing(HttpStatus::Forbidden)
            } else {
                match read {
                    FileRead::Failed => old(self)@.failing(HttpStatus::InternalServerError),
                    FileRead::Content(content) => old(self)@.with_file(path@, content@),
                }
            }),
            final(self)@.is_settled(),
    {
        let root = chars_of(root_dir);
        let full = chars_of(path);
        if hidden_file(&root, &full) {
            self.serve_error_response(HttpStatus::Forbidden);
            return ;
        }
        match read {
            FileRead::Failed => {
                self.serve_error_response(HttpStatus::InternalServerError);
            },
            FileRead::Content(content) => {
                let suffix = text_of_all(&extension_of(&file_name_of(&full)));
                let file_type = FileType::resolve(suffix.as_str());
                let mut headers: Vec<(String, String)> = Vec::new();
                headers.push(field("Content-Type", file_type.content_type.as_str()));
                headers.push(length_field(&content));
                headers.push(field("Content-Disposition", file_type.content_disposition()));
                assert(pairs(headers@) == file_headers(
                    content_type_of(extension(file_name(path@))),
                    content@,
                ));
                self.body = content;
                self.status_code = HttpStatus::Success;
                self.headers = headers;
            },
        }
    }

    /// Completes the response with the listing of a directory, from the entries that were
    /// found in it: 403 where the directory at `path` is hidden, else 200 with a page of
    /// HTML that links to the parent directory (unless `path` is the root), marks a
    /// directory without visible entries, and lists the visible directories before the
    /// visible files.
    pub fn serve_directory(&mut self, root_dir: &str, path: &str, found: &Vec<FoundEntry>)
        ensures
            final(self).request == old(self).request,
            final(self)@ == (if directory_is_hidden(root_dir@, path@) {
                old(self)@.failing(HttpStatus::Forbidden)
            } else {
                old(self)@.with_page(
                    HttpStatus::Success,
                    listing_page(
                        seq!['/'] + relative_to(path@, root_dir@),
                        root_dir@,
                        listed(found@),
                    ),
                )
            }),
            final(self)@.is_settled(),
            listed(found@).len() == 0 && !directory_is_hidden(root_dir@, path@) ==> final(self).status_code
                == HttpStatus::Success && contains(final(self).body@, encode_utf8(empty_item())),
    {
        proof {
            let shown = seq!['/'] + relative_to(path@, root_dir@);
            lemma_empty_listing_is_marked(shown, root_dir@);
            lemma_contains_encoded(listing_page(shown, root_dir@, Seq::empty()), empty_item());
        }
        let root = chars_of(root_dir);
        let full = chars_of(path);
        let below = relative_path(&full, &root);
        if begins_with_dot(&below) {
            self.serve_error_response(HttpStatus::Forbidden);
            return ;
        }
        let entries = Utils::walk_dir(found);
        let ghost shown = seq!['/'] + below@;
        let mut page = String::from_str("<html><body><h1>Directory listing for ");
        page.append("/");
        page.append(text_of_all(&below).as_str());
        page.append("</h1><ul>");
        proof {
            reveal_strlit("/");
            assert("/"@ == seq!['/']);
        }
        if below.len() > 0 {
            page.append("<li><a href='../'>..</a></li>");
            assert(shown != seq!['/']);
        } else {
            assert(shown == seq!['/']);
        }
        if entries.len() == 0 {
            page.append("<li><b>Empty Folder</b></li>");
        }
        assert(triples(entries@).len() == entries.len());
        push_entry_items(&mut page, &root, &entries, true);
        push_entry_items(&mut page, &root, &entries, false);
        page.append("</ul></body></html>");
        assert(page@ == listing_page(shown, root_dir@, listed(found@)));
        self.set_page(HttpStatus::Success, page.as_str());
    }

    /// Turns the response into the page that reports `status`: the headers are replaced by
    /// those of the page, so that none of an earlier attempt stays.
    pub fn serve_error_response(&mut self, status: HttpStatus)
        ensures
            final(self).request == old(self).request,
            final(self)@ == old(self)@.failing(status),
            final(self)@.is_settled(),
    {
        let mut page = String::from_str("<html><body><h1>");
        page.append(status.to_message());
        page.append("</h1></body></html>");
        self.set_page(status, page.as_str());
    }

    /// Turns the response into a page of HTML with this status and text.
    fn set_page(&mut self, status: HttpStatus, page: &str)
        ensures
            final(self).request == old(self).request,
            final(self)@ == old(self)@.with_page(status, page@),
    {
        let body = bytes_of(page);
        let mut headers: Vec<(String, String)> = Vec::new();
        headers.push(field("Content-Type", "text/html"));
        headers.push(length_field(&body));
        assert(pairs(headers@) == page_headers(body@));
        self.status_code = status;
        self.body = body;
        self.headers = headers;
    }

    /// Changes the response as the method of its request asks, with `date` as the current
    /// date for the answer to `OPTIONS`.
    pub fn apply_method(&mut self, date: &str)
        ensures
            final(self).request == old(self).request,
            final(self)@ == old(self)@.for_method(old(self).request.method, date@),
    {
        let methods: &str = "GET, HEAD, OPTIONS, TRACE";
        match &self.request.method {
            HttpMethod::Get => {},
            HttpMethod::Head => {
                self.body = Vec::new();
            },
            HttpMethod::Options => {
                let ghost before = pairs(self.headers@);
                self.body = Vec::new();
                self.headers.push(field("Date", date));
                self.headers.push(field("Allow", methods));
                self.headers.push(field("Access-Control-Allow-Origin", "*"));
                self.headers.push(field("Access-Control-Allow-Methods", methods));
                assert(pairs(self.headers@) == before + options_headers(date@));
            },
            HttpMethod::Trace => {
                let mut echo = String::from_str("\r\n");
                echo.append(self.request.to_string().as_str());
                let body = bytes_of(echo.as_str());
                let mut headers: Vec<(String, String)> = Vec::new();
                headers.push(field("Content-Type", "message/http"));
                headers.push(length_field(&body));
                assert(pairs(headers@) == trace_headers(body@));
                self.status_code = HttpStatus::Success;
                self.headers = headers;
                self.body = body;
            },
            HttpMethod::Other(_) => {
                let mut headers: Vec<(String, String)> = Vec::new();
                headers.push(field("Allow", methods));
                assert(pairs(headers@) == seq![("Allow"@, allowed_methods())]);
                self.status_code = HttpStatus::MethodNotAllowed;
                self.headers = headers;
                self.body = Vec::new();
            },
        }
    }

    /// The response as it goes over the wire: the status line, one line for each header
    /// and each cookie, and an empty line, all in UTF-8; then the bytes of the body as they
    /// are.
    pub fn to_string(&self) -> (wire: Vec<u8>)
        ensures
            wire@ == wire_bytes(self@),
    {
        let head = self.head();
        let mut wire = bytes_of(head.as_str());
        push_bytes(&mut wire, &self.body);
        wire
    }

    /// The head of the response as text: the status line, one line for each header and
    /// each cookie, and an empty line.
    pub fn head(&self) -> (out: String)
        ensures
            out@ == head_text(self@),
    {
        let mut out = String::from_str(self.http_version.as_str());
        out.append(" ");
        out.append(decimal_text(self.status_code.to_code() as u64).as_str());
        out.append(" ");
        out.append(self.status_code.to_message());
        out.append("\r\n");
        let ghost start = out@;
        let mut i: usize = 0;
        assert(pairs(self.headers@).take(0).len() == 0);
        assert(start + header_lines(pairs(self.headers@).take(0)) == start);
        while i < self.headers.len()
            invariant
                i <= self.headers.len(),
                out@ == start + header_lines(pairs(self.headers@).take(i as int)),
            decreases self.headers.len() - i,
        {
            let ghost upto = pairs(self.headers@).take(i + 1);
            assert(upto.drop_last() == pairs(self.headers@).take(i as int));
            assert(upto.last() == (self.headers@[i as int].0@, self.headers@[i as int].1@));
            out.append(trimmed(self.headers[i].0.as_str()).as_str());
            out.append(": ");
            out.append(trimmed(self.headers[i].1.as_str()).as_str());
            out.append("\r\n");
            assert(out@ == start + header_lines(upto));
            i += 1;
        }
        assert(pairs(self.headers@).take(self.headers.len() as int) == pairs(self.headers@));
        let ghost middle = out@;
        let mut j: usize = 0;
        assert(pairs(self.cookies@).take(0).len() == 0);
        assert(middle + cookie_lines(pairs(self.cookies@).take(0)) == middle);
        while j < self.cookies.len()
            invariant
                j <= self.cookies.len(),
                out@ == middle + cookie_lines(pairs(self.cookies@).take(j as int)),
            decreases self.cookies.len() - j,
        {
            let ghost upto = pairs(self.cookies@).take(j + 1);
            assert(upto.drop_last() == pairs(self.cookies@).take(j as int));
            assert(upto.last() == (self.cookies@[j as int].0@, self.cookies@[j as int].1@));
            out.append("Set-Cookie: ");
            out.append(trimmed(self.cookies[j].0.as_str()).as_str());
            out.append("=");
            out.append(trimmed(self.cookies[j].1.as_str()).as_str());
            out.append("\r\n");
            assert(out@ == middle + cookie_lines(upto));
            j += 1;
        }
        assert(pairs(self.cookies@).take(self.cookies.len() as int) == pairs(self.cookies@));
        out.append("\r\n");
        out
    }
}

} // verus!
