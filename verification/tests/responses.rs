use katana::http::{HttpStatus, HttpVersion};
use katana::request::Request;
use katana::response::{Fetch, FileRead, PathKind, Response};
use katana::server::{Config, Server, Templates};
use katana::utils::FoundEntry;

fn pair(name: &str, value: &str) -> (String, String) {
    (name.to_string(), value.to_string())
}

fn response_to(request: &str) -> Response {
    Response::new(Request::parse(request.as_bytes()).unwrap()).unwrap()
}

fn server() -> Server {
    Server::new(
        Config { host: "127.0.0.1".to_string(), port: 8080, root_dir: "public".to_string() },
        Templates { pages: Vec::new() },
    )
}

fn header<'a>(response: &'a Response, name: &str) -> Option<&'a str> {
    response.headers.iter().find(|(key, _)| key == name).map(|(_, value)| value.as_str())
}

fn error_page(phrase: &str) -> String {
    format!("<html><body><h1>{}</h1></body></html>", phrase)
}

/// The body as text.
fn body(response: &Response) -> String {
    String::from_utf8(response.body.clone()).unwrap()
}

/// The response on the wire, as text.
fn wire(response: &Response) -> String {
    String::from_utf8(response.to_string()).unwrap()
}

/// What plays the file system in these tests: the regular files with their content, and the
/// directories with their entries.
struct Tree {
    files: Vec<(&'static str, Option<&'static [u8]>)>,
    directories: Vec<(&'static str, Vec<FoundEntry>)>,
}

impl Tree {
    fn is_file(&self, path: &str) -> bool {
        self.files.iter().any(|(at, _)| *at == path)
    }

    fn directory(&self, path: &str) -> Option<&Vec<FoundEntry>> {
        let bare = path.trim_end_matches('/');
        self.directories.iter().find(|(at, _)| *at == bare).map(|(_, entries)| entries)
    }

    fn kind(&self, path: &str) -> PathKind {
        if self.directory(path).is_some() {
            let index = format!("{}/index.html", path.trim_end_matches('/'));
            PathKind::Directory { has_index: self.is_file(&index) }
        } else if self.is_file(path) {
            PathKind::File
        } else {
            PathKind::Missing
        }
    }

    fn read(&self, path: &str) -> FileRead {
        match self.files.iter().find(|(at, _)| *at == path) {
            Some((_, Some(content))) => FileRead::Content(content.to_vec()),
            _ => FileRead::Failed,
        }
    }

    /// One request, from its text to the response as it is sent.
    fn answer(&self, request: &str) -> Response {
        let server = server();
        let mut response = response_to(request);
        let root = server.root_dir().to_string();
        let path = response.file_path(&root);
        match response.serve(&root, self.kind(&path)) {
            Fetch::Nothing => {}
            Fetch::File(file) => {
                let read = self.read(&file);
                response.serve_file(&root, &file, read);
            }
            Fetch::Listing(directory) => {
                response.serve_directory(&root, &directory, self.directory(&directory).unwrap());
            }
        }
        server.server_transformation(&mut response);
        response
    }
}

fn entry(name: &str, is_directory: bool, path: &str) -> FoundEntry {
    FoundEntry { name: name.to_string(), is_directory, path: path.to_string() }
}

fn site() -> Tree {
    Tree {
        files: vec![
            ("public/index.html", Some(b"<h1>hi</h1>\n")),
            ("public/style.css", Some(b"body { margin: 0 }")),
            ("public/notes", Some(b"plain")),
            ("public/logo.png", Some(b"\x89PNG\r\n\x1a\n\x00\xff")),
            ("public/broken.txt", None),
            ("public/.secret", Some(b"key")),
            ("public/.git/config", Some(b"[core]")),
            ("public/.git/index.html", Some(b"inside")),
            ("public/.well-known/acme.txt", Some(b"token")),
            ("public/docs/.hidden.txt", Some(b"x")),
            ("public/docs/caf\u{e9}.txt", Some("caf\u{e9}".as_bytes())),
        ],
        directories: vec![
            ("public", vec![]),
            ("public/empty", vec![]),
            ("public/.git", vec![entry("config", false, "public/.git/config")]),
            ("public/.cache", vec![]),
            ("public/.well-known", vec![entry("acme.txt", false, "public/.well-known/acme.txt")]),
            (
                "public/docs",
                vec![
                    entry("z.txt", false, "public/docs/z.txt"),
                    entry("img", true, "public/docs/img"),
                    entry(".hidden.txt", false, "public/docs/.hidden.txt"),
                    entry("a.txt", false, "public/docs/a.txt"),
                    entry("archive", true, "public/docs/archive"),
                ],
            ),
        ],
    }
}

#[test]
fn a_fresh_response() {
    let request = Request::parse(b"GET / HTTP/1.0\r\n\r\n").unwrap();
    let response = Response::new(request.clone()).unwrap();
    assert_eq!(response.request, request);
    assert_eq!(response.http_version, HttpVersion::Http11);
    assert_eq!(response.status_code, HttpStatus::Success);
    assert!(response.headers.is_empty());
    assert!(response.cookies.is_empty());
    assert!(response.body.is_empty());
    assert_eq!(
        wire(&response), "HTTP/1.1 200 OK\r\n\r\n");
}

#[test]
fn the_index_of_the_root_is_served() {
    let response = site().answer("GET / HTTP/1.1\r\nHost: localhost\r\n\r\n");
    assert_eq!(response.status_code, HttpStatus::Success);
    assert_eq!(header(&response, "Content-Type"), Some("text/html"));
    assert_eq!(header(&response, "Content-Length"), Some("12"));
    assert_eq!(response.body, b"<h1>hi</h1>\n");
    assert_eq!(
        wire(&response),
        "HTTP/1.1 200 OK\r\nContent-Type: text/html\r\nContent-Length: 12\r\n\
         Content-Disposition: inline\r\nServer: Katana 0.1.0\r\n\r\n<h1>hi</h1>\n"
    );
}

#[test]
fn the_length_counts_the_bytes_of_the_body() {
    let mut response = response_to("GET / HTTP/1.1\r\n\r\n");
    response.serve_file("public", "public/index.html", FileRead::Content(b"<h1>hi</h1>".to_vec()));
    assert_eq!(response.body, b"<h1>hi</h1>");
    assert_eq!(header(&response, "Content-Length"), Some("11"));
    let accented = site().answer("GET /docs/caf\u{e9}.txt HTTP/1.1\r\n\r\n");
    assert_eq!(body(&accented), "caf\u{e9}");
    assert_eq!(header(&accented, "Content-Length"), Some("5"));
    assert_eq!(header(&accented, "Content-Type"), Some("text/plain"));
}

#[test]
fn a_missing_file_is_not_found() {
    let response = site().answer("GET /missing.txt HTTP/1.1\r\n\r\n");
    assert_eq!(response.status_code, HttpStatus::NotFound);
    assert_eq!(header(&response, "Content-Type"), Some("text/html"));
    assert!(body(&response).contains("Not Found"));
    assert_eq!(body(&response), error_page("Not Found"));
    assert_eq!(header(&response, "Content-Length"), Some("44"));
    assert_eq!(
        response.headers,
        vec![
            pair("Content-Type", "text/html"),
            pair("Content-Length", "44"),
            pair("Server", "Katana 0.1.0"),
        ]
    );
}

#[test]
fn a_hidden_file_is_forbidden() {
    let response = site().answer("GET /.secret HTTP/1.1\r\n\r\n");
    assert_eq!(response.status_code, HttpStatus::Forbidden);
    assert_eq!(body(&response), error_page("Forbidden"));
    let nested = site().answer("GET /docs/.hidden.txt HTTP/1.1\r\n\r\n");
    assert_eq!(nested.status_code, HttpStatus::Forbidden);
}

#[test]
fn what_lies_under_a_hidden_directory_is_forbidden() {
    for path in ["/.git/config", "/.git", "/.git/", "/.cache", "//.git/config", "/.git/index.html"] {
        let response = site().answer(&format!("GET {} HTTP/1.1\r\n\r\n", path));
        assert_eq!(response.status_code, HttpStatus::Forbidden, "for {}", path);
        assert_eq!(body(&response), error_page("Forbidden"));
    }
}

#[test]
fn what_is_missing_under_a_hidden_directory_is_not_found() {
    let response = site().answer("GET /.git/none HTTP/1.1\r\n\r\n");
    assert_eq!(response.status_code, HttpStatus::NotFound);
}

#[test]
fn well_known_files_are_served() {
    let response = site().answer("GET /.well-known/acme.txt HTTP/1.1\r\n\r\n");
    assert_eq!(response.status_code, HttpStatus::Success);
    assert_eq!(response.body, b"token");
    let mut direct = response_to("GET /.well-known HTTP/1.1\r\n\r\n");
    direct.serve_file("public", "public/.well-known", FileRead::Content(b"x".to_vec()));
    assert_eq!(direct.status_code, HttpStatus::Success);
}

#[test]
fn a_hidden_file_is_forbidden_before_it_is_read() {
    let mut response = response_to("GET /.secret HTTP/1.1\r\n\r\n");
    assert_eq!(response.serve("public", PathKind::File), Fetch::Nothing);
    assert_eq!(response.status_code, HttpStatus::Forbidden);
    let mut unreadable = response_to("GET /.secret HTTP/1.1\r\n\r\n");
    unreadable.serve_file("public", "public/.secret", FileRead::Failed);
    assert_eq!(unreadable.status_code, HttpStatus::Forbidden);
}

#[test]
fn a_file_that_cannot_be_read_is_a_server_error() {
    let response = site().answer("GET /broken.txt HTTP/1.1\r\n\r\n");
    assert_eq!(response.status_code, HttpStatus::InternalServerError);
    assert_eq!(body(&response), error_page("Internal Server Error"));
    assert_eq!(header(&response, "Content-Length"), Some("56"));
    assert_eq!(header(&response, "Content-Disposition"), None);
}

#[test]
fn files_are_served_by_their_extension() {
    let css = site().answer("GET /style.css HTTP/1.1\r\n\r\n");
    assert_eq!(
        css.headers,
        vec![
            pair("Content-Type", "text/css"),
            pair("Content-Length", "18"),
            pair("Content-Disposition", "inline"),
            pair("Server", "Katana 0.1.0"),
        ]
    );
    let plain = site().answer("GET /notes HTTP/1.1\r\n\r\n");
    assert_eq!(plain.status_code, HttpStatus::Success);
    assert_eq!(header(&plain, "Content-Type"), Some("application/octet-stream"));
    assert_eq!(header(&plain, "Content-Disposition"), Some("attachment"));
    assert_eq!(plain.body, b"plain");
}

#[test]
fn a_file_that_is_no_text_is_served_as_it_is() {
    let response = site().answer("GET /logo.png HTTP/1.1\r\n\r\n");
    assert_eq!(response.status_code, HttpStatus::Success);
    assert_eq!(response.body, b"\x89PNG\r\n\x1a\n\x00\xff");
    assert_eq!(header(&response, "Content-Type"), Some("image/png"));
    assert_eq!(header(&response, "Content-Length"), Some("10"));
    let sent = response.to_string();
    let head = b"HTTP/1.1 200 OK\r\nContent-Type: image/png\r\nContent-Length: 10\r\n\
                 Content-Disposition: inline\r\nServer: Katana 0.1.0\r\n\r\n";
    assert_eq!(&sent[..head.len()], head);
    assert_eq!(&sent[head.len()..], b"\x89PNG\r\n\x1a\n\x00\xff");
}

#[test]
fn the_head_is_sent_in_utf8() {
    let mut response = response_to("GET / HTTP/1.1\r\n\r\n");
    response.headers.push(pair("X-Name", "J\u{fc}rgen"));
    response.body = vec![0xff];
    assert_eq!(response.head(), "HTTP/1.1 200 OK\r\nX-Name: J\u{fc}rgen\r\n\r\n");
    let mut expected = "HTTP/1.1 200 OK\r\nX-Name: J\u{fc}rgen\r\n\r\n".as_bytes().to_vec();
    expected.push(0xff);
    assert_eq!(response.to_string(), expected);
}

#[test]
fn the_plan_names_what_to_read() {
    let mut response = response_to("GET /docs/ HTTP/1.1\r\n\r\n");
    assert_eq!(response.file_path("public"), "public/docs/");
    assert_eq!(response.file_path("public/"), "public/docs/");
    assert_eq!(response.file_path(""), "docs/");
    assert_eq!(
        response.serve("public", PathKind::Directory { has_index: false }),
        Fetch::Listing("public/docs/".to_string())
    );
    assert_eq!(
        response.serve("public", PathKind::Directory { has_index: true }),
        Fetch::File("public/docs/index.html".to_string())
    );
    assert_eq!(response.serve("public", PathKind::File), Fetch::File("public/docs/".to_string()));
    assert_eq!(response.status_code, HttpStatus::Success);
    assert!(response.headers.is_empty());
    assert_eq!(response.serve("public", PathKind::Missing), Fetch::Nothing);
    assert_eq!(response.status_code, HttpStatus::NotFound);
    let mut bare = response_to("GET /docs HTTP/1.1\r\n\r\n");
    assert_eq!(
        bare.serve("public", PathKind::Directory { has_index: true }),
        Fetch::File("public/docs/index.html".to_string())
    );
}

#[test]
fn leading_slashes_do_not_leave_the_root() {
    let response = response_to("GET ///etc/passwd HTTP/1.1\r\n\r\n");
    assert_eq!(response.file_path("/srv/www"), "/srv/www/etc/passwd");
}

#[test]
fn an_empty_directory_is_marked() {
    let response = site().answer("GET /empty HTTP/1.1\r\n\r\n");
    assert_eq!(response.status_code, HttpStatus::Success);
    assert!(body(&response).contains("<li><b>Empty Folder</b></li>"));
    assert_eq!(
        body(&response),
        "<html><body><h1>Directory listing for /empty</h1><ul><li><a href='../'>..</a></li>\
         <li><b>Empty Folder</b></li></ul></body></html>"
    );
    assert_eq!(header(&response, "Content-Type"), Some("text/html"));
    assert_eq!(header(&response, "Content-Length"), Some(response.body.len().to_string().as_str()));
}

#[test]
fn the_root_has_no_link_to_a_parent() {
    let mut response = response_to("GET / HTTP/1.1\r\n\r\n");
    response.serve_directory("public", "public/", &Vec::new());
    assert_eq!(
        body(&response),
        "<html><body><h1>Directory listing for /</h1><ul><li><b>Empty Folder</b></li></ul></body></html>"
    );
    assert_eq!(response.status_code, HttpStatus::Success);
}

#[test]
fn a_listing_shows_directories_before_files() {
    let response = site().answer("GET /docs HTTP/1.1\r\n\r\n");
    assert_eq!(response.status_code, HttpStatus::Success);
    assert_eq!(
        body(&response),
        "<html><body><h1>Directory listing for /docs</h1><ul><li><a href='../'>..</a></li>\
         <li><a href='/docs/img/'>img</a></li><li><a href='/docs/archive/'>archive</a></li>\
         <li><a href='/docs/z.txt'>z.txt</a></li><li><a href='/docs/a.txt'>a.txt</a></li>\
         </ul></body></html>"
    );
    assert!(!body(&response).contains("Empty Folder"));
    assert!(!body(&response).contains(".hidden"));
}

#[test]
fn a_link_keeps_a_path_that_is_not_under_the_root() {
    let mut response = response_to("GET /docs HTTP/1.1\r\n\r\n");
    let found = vec![entry("x", false, "elsewhere/x")];
    response.serve_directory("public", "public/docs", &found);
    assert!(body(&response).contains("<li><a href='elsewhere/x'>x</a></li>"));
}

#[test]
fn a_directory_with_hidden_entries_only_counts_as_empty() {
    let mut response = response_to("GET /docs HTTP/1.1\r\n\r\n");
    let found = vec![entry(".git", true, "public/docs/.git"), entry(".env", false, "public/docs/.env")];
    response.serve_directory("public", "public/docs", &found);
    assert_eq!(
        body(&response),
        "<html><body><h1>Directory listing for /docs</h1><ul><li><a href='../'>..</a></li>\
         <li><b>Empty Folder</b></li></ul></body></html>"
    );
}

#[test]
fn a_hidden_directory_is_not_listed() {
    let mut response = response_to("GET /.well-known HTTP/1.1\r\n\r\n");
    response.serve_directory("public", "public/.well-known", &Vec::new());
    assert_eq!(response.status_code, HttpStatus::Forbidden);
    assert_eq!(body(&response), error_page("Forbidden"));
}

#[test]
fn an_error_leaves_no_header_of_an_earlier_attempt() {
    let mut response = response_to("GET / HTTP/1.1\r\n\r\n");
    response.serve_file("public", "public/a.css", FileRead::Content(b"a{}".to_vec()));
    assert_eq!(response.headers.len(), 3);
    response.serve_error_response(HttpStatus::InternalServerError);
    assert_eq!(
        response.headers,
        vec![pair("Content-Type", "text/html"), pair("Content-Length", "56")]
    );
    assert_eq!(body(&response), error_page("Internal Server Error"));
    assert_eq!(response.status_code, HttpStatus::InternalServerError);
}

#[test]
fn every_error_has_its_page() {
    for (status, phrase) in [
        (HttpStatus::Forbidden, "Forbidden"),
        (HttpStatus::NotFound, "Not Found"),
        (HttpStatus::MethodNotAllowed, "Method Not Allowed"),
        (HttpStatus::InternalServerError, "Internal Server Error"),
    ] {
        let mut response = response_to("GET / HTTP/1.1\r\n\r\n");
        response.serve_error_response(status);
        assert_eq!(response.status_code, status);
        assert_eq!(body(&response), error_page(phrase));
        assert_eq!(
            header(&response, "Content-Length"),
            Some(response.body.len().to_string().as_str())
        );
    }
}

#[test]
fn the_wire_holds_headers_then_cookies_then_the_body() {
    let mut response = response_to("GET / HTTP/1.1\r\n\r\n");
    response.status_code = HttpStatus::NotFound;
    response.headers.push(pair("  X-One ", " 1\t"));
    response.headers.push(pair("X-Two", "two words"));
    response.headers.push(pair("X-One", "again"));
    response.cookies.push(pair(" sid ", " abc "));
    response.cookies.push(pair("theme", "dark"));
    response.body = b" body \r\n".to_vec();
    assert_eq!(
        wire(&response),
        "HTTP/1.1 404 Not Found\r\nX-One: 1\r\nX-Two: two words\r\nX-One: again\r\n\
         Set-Cookie: sid=abc\r\nSet-Cookie: theme=dark\r\n\r\n body \r\n"
    );
    response.http_version = HttpVersion::Http10;
    response.status_code = HttpStatus::Success;
    response.headers.clear();
    response.cookies.clear();
    response.body.clear();
    assert_eq!(
        wire(&response), "HTTP/1.0 200 OK\r\n\r\n");
}

#[test]
fn get_changes_nothing() {
    let mut response = response_to("GET / HTTP/1.1\r\n\r\n");
    response.serve_file("public", "public/a.txt", FileRead::Content(b"abc".to_vec()));
    let before = (response.headers.clone(), response.body.clone(), response.status_code);
    response.apply_method("Thu, 01 Jan 1970 00:00:00 GMT");
    assert_eq!((response.headers.clone(), response.body.clone(), response.status_code), before);
}

#[test]
fn head_drops_the_body_and_keeps_the_length_of_what_get_would_send() {
    let response = site().answer("HEAD / HTTP/1.1\r\n\r\n");
    assert_eq!(response.status_code, HttpStatus::Success);
    assert!(response.body.is_empty());
    assert_eq!(header(&response, "Content-Length"), Some("12"));
    assert_eq!(header(&response, "Content-Type"), Some("text/html"));
    let missing = site().answer("HEAD /missing HTTP/1.1\r\n\r\n");
    assert_eq!(missing.status_code, HttpStatus::NotFound);
    assert!(missing.body.is_empty());
    assert_eq!(header(&missing, "Content-Length"), Some("44"));
}

#[test]
fn options_adds_its_headers_to_those_of_the_resource() {
    let response = site().answer("OPTIONS / HTTP/1.1\r\n\r\n");
    assert_eq!(response.status_code, HttpStatus::Success);
    assert!(response.body.is_empty());
    assert_eq!(header(&response, "Allow"), Some("GET, HEAD, OPTIONS, TRACE"));
    assert_eq!(header(&response, "Access-Control-Allow-Origin"), Some("*"));
    assert_eq!(header(&response, "Access-Control-Allow-Methods"), Some("GET, HEAD, OPTIONS, TRACE"));
    let date = header(&response, "Date").unwrap();
    assert_eq!(date.len(), 29);
    assert!(date.ends_with(" GMT"));
    let names: Vec<&str> = response.headers.iter().map(|(name, _)| name.as_str()).collect();
    assert_eq!(
        names,
        vec![
            "Content-Type",
            "Content-Length",
            "Content-Disposition",
            "Date",
            "Allow",
            "Access-Control-Allow-Origin",
            "Access-Control-Allow-Methods",
            "Server",
        ]
    );
    let missing = site().answer("OPTIONS /missing HTTP/1.1\r\n\r\n");
    assert_eq!(missing.status_code, HttpStatus::NotFound);
    assert!(missing.body.is_empty());
}

#[test]
fn options_takes_the_date_that_it_is_given() {
    let mut response = response_to("OPTIONS / HTTP/1.1\r\n\r\n");
    response.headers.push(pair("X-Kept", "yes"));
    response.body = b"gone".to_vec();
    response.apply_method("Tue, 14 Nov 2023 22:13:20 GMT");
    assert_eq!(
        response.headers,
        vec![
            pair("X-Kept", "yes"),
            pair("Date", "Tue, 14 Nov 2023 22:13:20 GMT"),
            pair("Allow", "GET, HEAD, OPTIONS, TRACE"),
            pair("Access-Control-Allow-Origin", "*"),
            pair("Access-Control-Allow-Methods", "GET, HEAD, OPTIONS, TRACE"),
        ]
    );
    assert!(response.body.is_empty());
}

#[test]
fn trace_echoes_the_request_whatever_the_path() {
    for path in ["/", "/anything", "/.secret", "/missing/deep"] {
        let text = format!("TRACE {} HTTP/1.1\r\nHost: localhost\r\nX-Probe: 1\r\n\r\n", path);
        let response = site().answer(&text);
        assert_eq!(response.status_code, HttpStatus::Success, "for {}", path);
        let echo = format!("\r\nTRACE {} HTTP/1.1\r\nHost: localhost\r\nX-Probe: 1\r\n", path);
        assert_eq!(body(&response), echo);
        assert_eq!(
            response.headers,
            vec![
                pair("Content-Type", "message/http"),
                pair("Content-Length", &echo.len().to_string()),
                pair("Server", "Katana 0.1.0"),
            ]
        );
    }
}

#[test]
fn an_unsupported_method_is_refused_whatever_the_path() {
    for path in ["/", "/missing.txt", "/.secret", "/docs"] {
        let response = site().answer(&format!("DELETE {} HTTP/1.1\r\n\r\n", path));
        assert_eq!(response.status_code, HttpStatus::MethodNotAllowed, "for {}", path);
        assert!(response.body.is_empty());
        assert_eq!(
            response.headers,
            vec![pair("Allow", "GET, HEAD, OPTIONS, TRACE"), pair("Server", "Katana 0.1.0")]
        );
        assert_eq!(
        wire(&response),
            "HTTP/1.1 405 Method Not Allowed\r\nAllow: GET, HEAD, OPTIONS, TRACE\r\n\
             Server: Katana 0.1.0\r\n\r\n"
        );
    }
    let lower = site().answer("get / HTTP/1.1\r\n\r\n");
    assert_eq!(lower.status_code, HttpStatus::MethodNotAllowed);
}

#[test]
fn the_server_names_itself_and_its_address() {
    let server = server();
    assert_eq!(Server::version(), "Katana 0.1.0");
    assert_eq!(server.addr(), "127.0.0.1:8080");
    assert_eq!(server.addr_with_protocol(), "http://127.0.0.1:8080");
    assert_eq!(server.root_dir(), "public");
    let other = Server::new(
        Config { host: "localhost".to_string(), port: 0, root_dir: String::new() },
        Templates { pages: vec![pair("error", "<h1>{}</h1>")] },
    );
    assert_eq!(other.addr(), "localhost:0");
    let high = Server::new(
        Config { host: "::1".to_string(), port: 65535, root_dir: ".".to_string() },
        Templates { pages: Vec::new() },
    );
    assert_eq!(high.addr_with_protocol(), "http://::1:65535");
}

#[test]
fn the_log_line_gives_request_status_and_size() {
    let served = site().answer("GET / HTTP/1.1\r\nHost: localhost\r\n\r\n");
    assert_eq!(Server::log_response(&served), "\"GET / HTTP/1.1\" 200 12");
    let missing = site().answer("GET /missing.txt HTTP/1.0\r\n\r\n");
    assert_eq!(Server::log_response(&missing), "\"GET /missing.txt HTTP/1.0\" 404 44");
    let refused = site().answer("DELETE /x HTTP/1.1\r\n\r\n");
    assert_eq!(Server::log_response(&refused), "\"DELETE /x HTTP/1.1\" 405 0");
    let accented = site().answer("GET /docs/caf\u{e9}.txt HTTP/1.1\r\n\r\n");
    assert_eq!(Server::log_response(&accented), "\"GET /docs/caf\u{e9}.txt HTTP/1.1\" 200 5");
}

#[test]
fn the_transformation_keeps_the_request() {
    let server = server();
    let mut response = response_to("HEAD /a HTTP/1.1\r\nHost: b\r\n\r\n");
    let request = response.request.clone();
    response.serve_error_response(HttpStatus::NotFound);
    server.server_transformation(&mut response);
    assert_eq!(response.request, request);
    assert_eq!(response.headers.last(), Some(&pair("Server", "Katana 0.1.0")));
}
