//! Requests: the data of one request and the parser that reads it from the bytes of a
//! connection.
use crate::http::{HttpMethod, HttpVersion};
use crate::path::part_of;
use crate::text::{
    after, before, chars_of, find_char, is_digit, is_number, lemma_position, lemma_position_is,
    number_value, pairs, position, same_chars, text_of, trim, trim_bounds,
};
use vstd::prelude::*;
use vstd::string::*;
use vstd::utf8::{decode_utf8, valid_utf8};

verus! {

/// One request, as the parser read it.
#[derive(Debug, Clone, PartialEq, Eq)]
pub struct Request {
    pub method: HttpMethod,
    pub path: String,
    pub http_version: HttpVersion,
    pub headers: Vec<(String, String)>,
    pub cookies: Vec<(String, String)>,
    pub body: Vec<u8>,
}

/// What a request holds, as mathematical values. The method is given by its verb.
pub struct RequestView {
    pub method: Seq<char>,
    pub path: Seq<char>,
    pub version: HttpVersion,
    pub headers: Seq<(Seq<char>, Seq<char>)>,
    pub cookies: Seq<(Seq<char>, Seq<char>)>,
    pub body: Seq<u8>,
}

/// The line feed that ends a line.
pub const LINE_FEED: u8 = 10;

/// The carriage return that may stand before a line feed.
pub const CARRIAGE_RETURN: u8 = 13;

/// A line without the carriage return that it may end in.
pub open spec fn strip_return(line: Seq<u8>) -> Seq<u8> {
    if line.len() > 0 && line.last() == CARRIAGE_RETURN {
        line.drop_last()
    } else {
        line
    }
}

/// The first line of `input`, without its line end.
pub open spec fn first_line(input: Seq<u8>) -> Seq<u8> {
    strip_return(before(input, LINE_FEED))
}

/// What follows the first line of `input`.
pub open spec fn after_first_line(input: Seq<u8>) -> Seq<u8> {
    after(input, LINE_FEED)
}

/// The three parts of a request line: the method token, the path and the version. They are
/// separated by single spaces; the method is not empty, the path begins with a slash, and
/// the version is one that the server knows. Nothing otherwise.
pub open spec fn request_line(line: Seq<char>) -> Option<(Seq<char>, Seq<char>, HttpVersion)> {
    let method = before(line, ' ');
    let rest = after(line, ' ');
    let path = before(rest, ' ');
    let version = HttpVersion::named(after(rest, ' '));
    if method.len() > 0 && path.len() > 0 && path[0] == '/' && version is Some {
        Some((method, path, version->0))
    } else {
        None
    }
}

/// The header that a line holds: the name before its first colon and the value after it,
/// both trimmed. Nothing where the line has no colon.
pub open spec fn header_of(line: Seq<char>) -> Option<(Seq<char>, Seq<char>)> {
    if position(line, ':') < line.len() {
        Some((trim(before(line, ':')), trim(after(line, ':'))))
    } else {
        None
    }
}

/// The headers that `input` begins with, and what follows the blank line that ends them.
/// Lines without a colon are passed over. Nothing where a line is not UTF-8.
pub open spec fn head_of(input: Seq<u8>) -> Option<(Seq<(Seq<char>, Seq<char>)>, Seq<u8>)>
    decreases input.len(),
    via head_of_decreases
{
    let line = first_line(input);
    if line.len() == 0 {
        Some((Seq::empty(), after_first_line(input)))
    } else if !valid_utf8(line) {
        None
    } else {
        with_header(header_of(decode_utf8(line)), head_of(after_first_line(input)))
    }
}

#[via_fn]
proof fn head_of_decreases(input: Seq<u8>) {
    lemma_position(input, LINE_FEED);
}

/// What follows the head is no longer than the input.
pub proof fn lemma_head_rest(input: Seq<u8>)
    ensures
        head_of(input) matches Some((_, rest)) ==> rest.len() <= input.len(),
    decreases input.len(),
{
    lemma_position(input, LINE_FEED);
    let line = first_line(input);
    if line.len() > 0 && valid_utf8(line) {
        lemma_head_rest(after_first_line(input));
    }
}

/// `rest` with the header `first`, if there is one, put before its headers.
pub open spec fn with_header(
    first: Option<(Seq<char>, Seq<char>)>,
    rest: Option<(Seq<(Seq<char>, Seq<char>)>, Seq<u8>)>,
) -> Option<(Seq<(Seq<char>, Seq<char>)>, Seq<u8>)> {
    match rest {
        None => None,
        Some((headers, body)) => match first {
            Some(header) => Some((seq![header] + headers, body)),
            None => Some((headers, body)),
        },
    }
}

/// `rest` with the headers `first` put before its headers.
pub open spec fn with_headers(
    first: Seq<(Seq<char>, Seq<char>)>,
    rest: Option<(Seq<(Seq<char>, Seq<char>)>, Seq<u8>)>,
) -> Option<(Seq<(Seq<char>, Seq<char>)>, Seq<u8>)> {
    match rest {
        None => None,
        Some((headers, body)) => Some((first + headers, body)),
    }
}

/// The cookies that the value of a `Cookie` header names: its pieces between semicolons,
/// each split at its first `=` into a name and a value, both trimmed. Pieces without `=`
/// are passed over.
pub open spec fn cookie_pairs(value: Seq<char>) -> Seq<(Seq<char>, Seq<char>)>
    decreases value.len(),
    via cookie_pairs_decreases
{
    if value.len() == 0 {
        Seq::empty()
    } else {
        let piece = before(value, ';');
        let rest = cookie_pairs(after(value, ';'));
        if position(piece, '=') < piece.len() {
            seq![(trim(before(piece, '=')), trim(after(piece, '=')))] + rest
        } else {
            rest
        }
    }
}

#[via_fn]
proof fn cookie_pairs_decreases(value: Seq<char>) {
    lemma_position(value, ';');
}

/// The cookies of all headers named `Cookie`, in order.
pub open spec fn cookies_of(headers: Seq<(Seq<char>, Seq<char>)>) -> Seq<(Seq<char>, Seq<char>)>
    decreases headers.len(),
{
    if headers.len() == 0 {
        Seq::empty()
    } else if headers.last().0 == "Cookie"@ {
        cookies_of(headers.drop_last()) + cookie_pairs(headers.last().1)
    } else {
        cookies_of(headers.drop_last())
    }
}

/// The length that the first `Content-Length` header with a number for its value declares.
pub open spec fn declared_length(headers: Seq<(Seq<char>, Seq<char>)>) -> Option<nat>
    decreases headers.len(),
{
    if headers.len() == 0 {
        None
    } else if headers[0].0 == "Content-Length"@ && is_number(headers[0].1) {
        Some(number_value(headers[0].1))
    } else {
        declared_length(headers.skip(1))
    }
}

/// The body: what follows the head, cut to the declared length where one is declared.
pub open spec fn body_of(headers: Seq<(Seq<char>, Seq<char>)>, rest: Seq<u8>) -> Seq<u8> {
    match declared_length(headers) {
        Some(length) => if length < rest.len() {
            rest.take(length as int)
        } else {
            rest
        },
        None => rest,
    }
}

/// Whether `input` holds an empty line that a line feed ends: the head is closed.
pub open spec fn head_closed(input: Seq<u8>) -> bool
    decreases input.len(),
    via head_closed_decreases
{
    if position(input, LINE_FEED) >= input.len() {
        false
    } else if first_line(input).len() == 0 {
        true
    } else {
        head_closed(after_first_line(input))
    }
}

#[via_fn]
proof fn head_closed_decreases(input: Seq<u8>) {
    lemma_position(input, LINE_FEED);
}

/// Whether `input` holds a whole request: its head is closed, and where the head declares
/// a length, the body has it. Input whose head cannot be read counts as whole: there is
/// nothing to wait for.
pub open spec fn is_whole(input: Seq<u8>) -> bool {
    &&& head_closed(input)
    &&& match head_of(after_first_line(input)) {
        Some((headers, rest)) => match declared_length(headers) {
            Some(length) => length <= rest.len(),
            None => true,
        },
        None => true,
    }
}

/// What the bytes of a connection hold, if they begin with a well-formed request line in
/// UTF-8 and all header lines are UTF-8.
pub open spec fn parsed(input: Seq<u8>) -> Option<RequestView> {
    let line = first_line(input);
    if !valid_utf8(line) {
        None
    } else {
        match (request_line(decode_utf8(line)), head_of(after_first_line(input))) {
            (Some((method, path, version)), Some((headers, rest))) => Some(
                RequestView {
                    method,
                    path,
                    version,
                    headers,
                    cookies: cookies_of(headers),
                    body: body_of(headers, rest),
                },
            ),
            _ => None,
        }
    }
}

/// The request line and the header lines, each ended by a carriage return and a line feed.
pub open spec fn request_text(request: RequestView) -> Seq<char> {
    request_line_text(request) + "\r\n"@ + field_lines(request.headers)
}

/// The request line: method, path and version with single spaces between them.
pub open spec fn request_line_text(request: RequestView) -> Seq<char> {
    request.method + " "@ + request.path + " "@ + request.version.text()
}

/// One line `name: value` for each field, each ended by a carriage return and a line feed.
pub open spec fn field_lines(fields: Seq<(Seq<char>, Seq<char>)>) -> Seq<char>
    decreases fields.len(),
{
    if fields.len() == 0 {
        Seq::empty()
    } else {
        field_lines(fields.drop_last()) + fields.last().0 + ": "@ + fields.last().1 + "\r\n"@
    }
}

/// Decodes UTF-8 with `String::from_utf8`: the text that the bytes encode, or nothing where
/// they are not valid UTF-8.
#[verifier::external_body]
fn decode_text(bytes: Vec<u8>) -> (text: Option<String>)
    ensures
        text is Some <==> valid_utf8(bytes@),
        text matches Some(decoded) ==> decoded@ == decode_utf8(bytes@),
{
    String::from_utf8(bytes).ok()
}

/// Index of the line feed that ends the line beginning at `from`, or the length of `input`.
fn line_end(input: &[u8], from: usize) -> (at: usize)
    requires
        from <= input.len(),
    ensures
        from <= at <= input.len(),
        at == from + position(input@.skip(from as int), LINE_FEED),
{
    let ghost rest = input@.skip(from as int);
    let mut i: usize = from;
    while i < input.len() && input[i] != LINE_FEED
        invariant
            from <= i <= input.len(),
            rest == input@.skip(from as int),
            forall|j: int| 0 <= j < i - from ==> rest[j] != LINE_FEED,
        decreases input.len() - i,
    {
        i += 1;
    }
    proof {
        lemma_position_is(rest, LINE_FEED, i - from);
    }
    i
}

/// The line that begins at `from` and ends before `end`, without its carriage return.
fn line_bytes(input: &[u8], from: usize, end: usize) -> (line: Vec<u8>)
    requires
        from <= end <= input.len(),
        end == from + position(input@.skip(from as int), LINE_FEED),
    ensures
        line@ == first_line(input@.skip(from as int)),
{
    let stop: usize = if end > from && input[end - 1] == CARRIAGE_RETURN {
        end - 1
    } else {
        end
    };
    let mut line: Vec<u8> = Vec::new();
    let mut i: usize = from;
    while i < stop
        invariant
            from <= i <= stop <= input.len(),
            line@ == input@.subrange(from as int, i as int),
        decreases stop - i,
    {
        line.push(input[i]);
        i += 1;
    }
    proof {
        let rest = input@.skip(from as int);
        let whole = before(rest, LINE_FEED);
        assert(whole == input@.subrange(from as int, end as int));
        assert(first_line(rest) == input@.subrange(from as int, stop as int));
    }
    line
}

/// Where the line after the one that ends at `end` begins.
fn next_line(input: &[u8], from: usize, end: usize) -> (next: usize)
    requires
        from <= end <= input.len(),
        end == from + position(input@.skip(from as int), LINE_FEED),
    ensures
        end <= next <= input.len(),
        from < input.len() ==> from < next,
        input@.skip(next as int) == after_first_line(input@.skip(from as int)),
{
    if end < input.len() {
        assert(input@.skip(from as int).skip(end - from + 1) == input@.skip(end + 1));
        end + 1
    } else {
        assert(input@.skip(end as int) == Seq::<u8>::empty());
        end
    }
}

/// Reads a request line.
fn read_request_line(line: &Vec<char>) -> (parts: Option<(HttpMethod, String, HttpVersion)>)
    ensures
        parts is Some <==> request_line(line@) is Some,
        parts matches Some((method, path, version)) ==> ({
            let expected = request_line(line@)->0;
            &&& method.names(expected.0)
            &&& path@ == expected.1
            &&& version == expected.2
        }),
{
    let n: usize = line.len();
    assert(line@.subrange(0, n as int) == line@);
    let first = find_char(line, 0, n, ' ');
    let ghost rest = after(line@, ' ');
    if first == 0 || first == n {
        proof {
            if first == n {
                assert(rest.len() == 0);
                assert(before(rest, ' ').len() == 0);
            }
        }
        return None;
    }
    assert(before(line@, ' ') == line@.subrange(0, first as int));
    assert(rest == line@.subrange(first + 1, n as int));
    let second = find_char(line, first + 1, n, ' ');
    assert(before(rest, ' ') == line@.subrange(first + 1, second as int));
    if second == first + 1 || line[first + 1] != '/' {
        return None;
    }
    let token: Vec<char> = if second < n {
        assert(after(rest, ' ') == line@.subrange(second + 1, n as int));
        part_of(line, second + 1, n)
    } else {
        assert(after(rest, ' ') == Seq::<char>::empty());
        Vec::new()
    };
    match HttpVersion::from_token(&token) {
        None => None,
        Some(version) => {
            let method = HttpMethod::from_token(&part_of(line, 0, first));
            let path = text_of(line, first + 1, second);
            Some((method, path, version))
        },
    }
}

/// Reads a header line.
fn read_header(line: &Vec<char>) -> (header: Option<(String, String)>)
    ensures
        header is Some <==> header_of(line@) is Some,
        header matches Some(field) ==> (field.0@, field.1@) == header_of(line@)->0,
{
    let n: usize = line.len();
    assert(line@.subrange(0, n as int) == line@);
    let colon = find_char(line, 0, n, ':');
    if colon == n {
        return None;
    }
    assert(before(line@, ':') == line@.subrange(0, colon as int));
    assert(after(line@, ':') == line@.subrange(colon + 1, n as int));
    let (a, b) = trim_bounds(line, 0, colon);
    let (c, d) = trim_bounds(line, colon + 1, n);
    Some((text_of(line, a, b), text_of(line, c, d)))
}

/// Reads the value of a `Cookie` header and appends its cookies to `cookies`.
fn read_cookies(value: &Vec<char>, cookies: &mut Vec<(String, String)>)
    ensures
        pairs(final(cookies)@) == pairs(old(cookies)@) + cookie_pairs(value@),
{
    let n: usize = value.len();
    let ghost start = pairs(cookies@);
    let mut at: usize = 0;
    assert(value@.skip(0) == value@);
    assert(start + Seq::<(Seq<char>, Seq<char>)>::empty() == start);
    let ghost mut found: Seq<(Seq<char>, Seq<char>)> = Seq::empty();
    while at < n
        invariant
            at <= n,
            n == value.len(),
            pairs(cookies@) == start + found,
            cookie_pairs(value@) == found + cookie_pairs(value@.skip(at as int)),
        decreases n - at,
    {
        let ghost rest = value@.skip(at as int);
        assert(rest == value@.subrange(at as int, n as int));
        let semi = find_char(value, at, n, ';');
        let ghost piece = before(rest, ';');
        assert(piece == value@.subrange(at as int, semi as int));
        let equals = find_char(value, at, semi, '=');
        let next: usize = if semi < n {
            assert(after(rest, ';') == value@.skip(semi + 1));
            semi + 1
        } else {
            assert(after(rest, ';') == value@.skip(n as int));
            n
        };
        if equals < semi {
            assert(before(piece, '=') == value@.subrange(at as int, equals as int));
            assert(after(piece, '=') == value@.subrange(equals + 1, semi as int));
            let (a, b) = trim_bounds(value, at, equals);
            let (c, d) = trim_bounds(value, equals + 1, semi);
            let pair = (text_of(value, a, b), text_of(value, c, d));
            let ghost seen = (pair.0@, pair.1@);
            cookies.push(pair);
            proof {
                assert(pairs(cookies@) == (start + found).push(seen));
                assert(cookie_pairs(rest) == seq![seen] + cookie_pairs(value@.skip(next as int)));
                found = found.push(seen);
                assert(found + cookie_pairs(value@.skip(next as int)) == found.drop_last() + (
                seq![seen] + cookie_pairs(value@.skip(next as int))));
                assert(start + found == (start + found.drop_last()).push(seen));
            }
        } else {
            assert(cookie_pairs(rest) == cookie_pairs(value@.skip(next as int)));
        }
        at = next;
    }
    assert(value@.skip(n as int).len() == 0);
    assert(found + cookie_pairs(value@.skip(n as int)) == found);
}

/// Whether `chars` is a non-empty run of digits.
fn all_digits(chars: &Vec<char>) -> (r: bool)
    ensures
        r == is_number(chars@),
{
    if chars.len() == 0 {
        return false;
    }
    let mut i: usize = 0;
    while i < chars.len()
        invariant
            i <= chars.len(),
            forall|j: int| 0 <= j < i ==> is_digit(#[trigger] chars@[j]),
        decreases chars.len() - i,
    {
        if !('0' <= chars[i] && chars[i] <= '9') {
            return false;
        }
        i += 1;
    }
    true
}

/// The number that the digits denote, or `cap` where that is less.
fn number_up_to(digits: &Vec<char>, cap: usize) -> (r: usize)
    requires
        is_number(digits@),
    ensures
        r == (if number_value(digits@) < cap {
            number_value(digits@)
        } else {
            cap as nat
        }),
{
    let mut value: usize = 0;
    let mut i: usize = 0;
    assert(digits@.take(0).len() == 0);
    while i < digits.len()
        invariant
            i <= digits.len(),
            is_number(digits@),
            value <= cap,
            value == if number_value(digits@.take(i as int)) < cap {
                number_value(digits@.take(i as int))
            } else {
                cap as nat
            },
        decreases digits.len() - i,
    {
        let c = digits[i];
        assert(is_digit(digits@[i as int]));
        let digit: u128 = (c as u32 - '0' as u32) as u128;
        let next: u128 = (value as u128) * 10 + digit;
        assert(digits@.take(i + 1).drop_last() == digits@.take(i as int));
        assert(digits@.take(i + 1).last() == c);
        value = if next < cap as u128 {
            next as usize
        } else {
            cap
        };
        i += 1;
    }
    assert(digits@.take(digits.len() as int) == digits@);
    value
}

/// The length that the headers declare, or `cap` where that is less.
fn declared_up_to(headers: &Vec<(String, String)>, cap: usize) -> (length: Option<usize>)
    ensures
        (match declared_length(pairs(headers@)) {
            Some(declared) => length == Some(
                if declared < cap {
                    declared as usize
                } else {
                    cap
                },
            ),
            None => length is None,
        }),
{
    let name = chars_of("Content-Length");
    let mut i: usize = 0;
    assert(pairs(headers@).skip(0) == pairs(headers@));
    while i < headers.len()
        invariant
            i <= headers.len(),
            name@ == "Content-Length"@,
            declared_length(pairs(headers@)) == declared_length(pairs(headers@).skip(i as int)),
        decreases headers.len() - i,
    {
        let ghost rest = pairs(headers@).skip(i as int);
        assert(rest[0] == (headers@[i as int].0@, headers@[i as int].1@));
        assert(rest.skip(1) == pairs(headers@).skip(i + 1));
        if same_chars(&chars_of(headers[i].0.as_str()), &name) {
            let value = chars_of(headers[i].1.as_str());
            if all_digits(&value) {
                return Some(number_up_to(&value, cap));
            }
        }
        i += 1;
    }
    None
}

/// Whether the bytes from `from` on hold an empty line that a line feed ends.
fn closes_head(input: &[u8], from: usize) -> (closed: bool)
    requires
        from <= input.len(),
    ensures
        closed == head_closed(input@.skip(from as int)),
{
    let n: usize = input.len();
    let mut at: usize = from;
    loop
        invariant
            at <= n,
            n == input.len(),
            head_closed(input@.skip(from as int)) == head_closed(input@.skip(at as int)),
        decreases n - at,
    {
        let end = line_end(input, at);
        if end == n {
            return false;
        }
        let line = line_bytes(input, at, end);
        if line.len() == 0 {
            return true;
        }
        let next = next_line(input, at, end);
        at = next;
    }
}

/// Reads the header lines that begin at `from`: the headers, and where the body begins.
fn read_head(input: &[u8], from: usize) -> (head: Option<(Vec<(String, String)>, usize)>)
    requires
        from <= input.len(),
    ensures
        head is Some <==> head_of(input@.skip(from as int)) is Some,
        head matches Some((headers, body_start)) ==> body_start <= input.len() && head_of(
            input@.skip(from as int),
        ) == Some((pairs(headers@), input@.skip(body_start as int))),
{
    let n: usize = input.len();
    let mut at: usize = from;
    let mut headers: Vec<(String, String)> = Vec::new();
    proof {
        assert(pairs(headers@) == Seq::<(Seq<char>, Seq<char>)>::empty());
        let whole = head_of(input@.skip(at as int));
        if whole is Some {
            assert(pairs(headers@) + whole.unwrap().0 == whole.unwrap().0);
        }
    }
    loop
        invariant
            at <= n,
            n == input.len(),
            head_of(input@.skip(from as int)) == with_headers(
                pairs(headers@),
                head_of(input@.skip(at as int)),
            ),
        decreases n - at,
    {
        let ghost before_headers = pairs(headers@);
        let end = line_end(input, at);
        let line = line_bytes(input, at, end);
        let next = next_line(input, at, end);
        if line.len() == 0 {
            assert(before_headers + Seq::<(Seq<char>, Seq<char>)>::empty() == before_headers);
            return Some((headers, next));
        }
        let text = match decode_text(line) {
            None => { return None; },
            Some(text) => chars_of(text.as_str()),
        };
        let ghost tail = head_of(input@.skip(next as int));
        match read_header(&text) {
            Some(field) => {
                let ghost seen = (field.0@, field.1@);
                headers.push(field);
                proof {
                    assert(pairs(headers@) == before_headers.push(seen));
                    if tail is Some {
                        assert(before_headers + (seq![seen] + tail.unwrap().0)
                            == before_headers.push(seen) + tail.unwrap().0);
                    }
                }
            },
            None => {},
        }
        assert(at < next);
        at = next;
    }
}

impl Request {
    /// The request as mathematical values.
    pub open spec fn view(&self) -> RequestView {
        RequestView {
            method: self.method.name(),
            path: self.path@,
            version: self.http_version,
            headers: pairs(self.headers@),
            cookies: pairs(self.cookies@),
            body: self.body@,
        }
    }

    /// The request line and the header lines as text, each line ended by a carriage return
    /// and a line feed.
    pub open spec fn text(&self) -> Seq<char> {
        request_text(self@)
    }

    /// What holds of every request that the parser read: its path begins with a slash, and
    /// its method is one of the four supported ones wherever its verb is theirs.
    pub open spec fn is_well_formed(&self) -> bool {
        &&& self.path@.len() > 0
        &&& self.path@[0] == '/'
        &&& self.method.names(self.method.name())
    }

    /// Reads a request from the bytes that a connection delivered. The first line is the
    /// request line, the lines up to the first empty one are headers, and what follows is
    /// the body, cut to the length that a `Content-Length` header declares. Lines end in a
    /// line feed, with or without a carriage return before it. Fails where the request line
    /// is malformed or a line of the head is not UTF-8.
    pub fn parse(input: &[u8]) -> (request: Option<Request>)
        ensures
            request is Some <==> parsed(input@) is Some,
            request matches Some(read) ==> read@ == parsed(input@)->0 && read.is_well_formed(),
    {
        let n: usize = input.len();
        assert(input@.skip(0) == input@);
        let end = line_end(input, 0);
        let first = match decode_text(line_bytes(input, 0, end)) {
            None => { return None; },
            Some(text) => chars_of(text.as_str()),
        };
        let (method, path, http_version) = match read_request_line(&first) {
            None => { return None; },
            Some(parts) => parts,
        };
        let head_start = next_line(input, 0, end);
        let (headers, body_start) = match read_head(input, head_start) {
            None => { return None; },
            Some(head) => head,
        };
        let mut cookies: Vec<(String, String)> = Vec::new();
        let cookie_name = chars_of("Cookie");
        let mut i: usize = 0;
        assert(pairs(headers@).take(0).len() == 0);
        assert(pairs(cookies@) == Seq::<(Seq<char>, Seq<char>)>::empty());
        while i < headers.len()
            invariant
                i <= headers.len(),
                cookie_name@ == "Cookie"@,
                pairs(cookies@) == cookies_of(pairs(headers@).take(i as int)),
            decreases headers.len() - i,
        {
            let ghost upto = pairs(headers@).take(i + 1);
            assert(upto.drop_last() == pairs(headers@).take(i as int));
            assert(upto.last() == (headers@[i as int].0@, headers@[i as int].1@));
            if same_chars(&chars_of(headers[i].0.as_str()), &cookie_name) {
                let value = chars_of(headers[i].1.as_str());
                read_cookies(&value, &mut cookies);
            }
            i += 1;
        }
        assert(pairs(headers@).take(headers.len() as int) == pairs(headers@));
        let length: usize = match declared_up_to(&headers, n - body_start) {
            Some(declared) => declared,
            None => n - body_start,
        };
        let mut body: Vec<u8> = Vec::new();
        let mut k: usize = 0;
        let ghost rest = input@.skip(body_start as int);
        while k < length
            invariant
                k <= length <= n - body_start,
                body_start <= n,
                n == input.len(),
                rest == input@.skip(body_start as int),
                body@ == rest.take(k as int),
            decreases length - k,
        {
            body.push(input[body_start + k]);
            assert(rest.take(k + 1) == rest.take(k as int).push(rest[k as int]));
            k += 1;
        }
        assert(rest.take(rest.len() as int) == rest);
        Some(Request { method, path, http_version, headers, cookies, body })
    }

    /// Whether the bytes that a connection delivered so far hold a whole request, so that
    /// reading can stop: an empty line closes the head, and the body has the length that
    /// the head declares. Bytes whose head cannot be read count as whole.
    pub fn is_complete(input: &[u8]) -> (whole: bool)
        ensures
            whole == is_whole(input@),
    {
        let n: usize = input.len();
        assert(input@.skip(0) == input@);
        if !closes_head(input, 0) {
            return false;
        }
        let end = line_end(input, 0);
        let head_start = next_line(input, 0, end);
        match read_head(input, head_start) {
            None => true,
            Some((headers, body_start)) => {
                let available: usize = n - body_start;
                proof {
                    lemma_position(input@, LINE_FEED);
                }
                assert(head_start >= 1);
                assert(body_start >= head_start) by {
                    lemma_head_rest(input@.skip(head_start as int));
                    assert(input@.skip(head_start as int).len() == n - head_start);
                    assert(input@.skip(body_start as int).len() == n - body_start);
                }
                match declared_up_to(&headers, available + 1) {
                    Some(declared) => declared <= available,
                    None => true,
                }
            },
        }
    }

    /// The request line: method, path and version with single spaces between them.
    pub fn request_line(&self) -> (out: String)
        ensures
            out@ == request_line_text(self@),
    {
        let mut out = self.method.to_text();
        out.append(" ");
        out.append(self.path.as_str());
        out.append(" ");
        out.append(self.http_version.as_str());
        out
    }

    /// The request line and the header lines as text, each line ended by a carriage return
    /// and a line feed: what the client sent before the body, in the server's own spelling.
    pub fn to_string(&self) -> (out: String)
        ensures
            out@ == self.text(),
    {
        let mut out = self.request_line();
        out.append("\r\n");
        let ghost start = out@;
        let mut i: usize = 0;
        assert(pairs(self.headers@).take(0).len() == 0);
        assert(start + field_lines(pairs(self.headers@).take(0)) == start);
        while i < self.headers.len()
            invariant
                i <= self.headers.len(),
                out@ == start + field_lines(pairs(self.headers@).take(i as int)),
            decreases self.headers.len() - i,
        {
            let ghost upto = pairs(self.headers@).take(i + 1);
            assert(upto.drop_last() == pairs(self.headers@).take(i as int));
            assert(upto.last() == (self.headers@[i as int].0@, self.headers@[i as int].1@));
            out.append(self.headers[i].0.as_str());
            out.append(": ");
            out.append(self.headers[i].1.as_str());
            out.append("\r\n");
            assert(out@ == start + field_lines(upto));
            i += 1;
        }
        assert(pairs(self.headers@).take(self.headers.len() as int) == pairs(self.headers@));
        out
    }
}

} // verus!
