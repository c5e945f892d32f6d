//! What the server answers to a request: which file, under which status
//! line, and the bytes that frame it on the wire.

use crate::registry::{entries, find, lookup, FileEntry, WebFile};
use crate::text::{
    append_chars, before, chars_of, decimal, find_char, first_word, push_decimal, replace,
    replace_all, slice_of, starts_with, string_of, word,
};
use vstd::prelude::*;
use vstd::string::StringSliceAdditionalSpecFns;

verus! {

/// The decision taken on one request.
pub struct Answer {
    /// The first line of the response.
    pub status_line: String,
    /// The file whose contents make the body.
    pub filename: String,
    /// The entry for the log.
    pub log: String,
}

/// An answer as plain values.
pub struct AnswerView {
    pub status_line: Seq<char>,
    pub filename: Seq<char>,
    pub log: Seq<char>,
}

impl View for Answer {
    type V = AnswerView;

    open spec fn view(&self) -> AnswerView {
        AnswerView { status_line: self.status_line@, filename: self.filename@, log: self.log@ }
    }
}

/// The path a `GET` request asks for, below the served directory: every
/// `GET /` is struck from the request, `./www/` is put in front, and of
/// the first word of that only what stands before a `?` counts.
pub open spec fn requested_path(request: Seq<char>) -> Seq<char> {
    before(first_word("./www/"@ + replace_all(request, "GET /"@, Seq::empty())), '?')
}

/// The answer that a request gets, given the registry.
///
/// A request for `/` gets the index page. Any other `GET` gets the file it
/// names if the registry lists it as public, the 403 page if the registry
/// lists it otherwise, and the 404 page if the registry does not know it.
/// Everything else gets the 400 page.
pub open spec fn answer_to(request: Seq<char>, known: Seq<FileEntry>) -> AnswerView {
    if "GET / HTTP/1.1\r\n"@.is_prefix_of(request) {
        AnswerView {
            status_line: "HTTP/1.1 200 OK"@,
            filename: "www/index.html"@,
            log: "Response: 200 OK. File: index.html"@,
        }
    } else if "GET /"@.is_prefix_of(request) {
        let path = requested_path(request);
        match lookup(known, path) {
            Some(true) => AnswerView {
                status_line: "HTTP/1.1 200 OK"@,
                filename: path,
                log: "Response: 200 OK. File: "@ + path,
            },
            Some(false) => AnswerView {
                status_line: "HTTP/1.1 403 FORBIDDEN"@,
                filename: "www/default/403.html"@,
                log: "Response: 403 FORBIDDEN. File: "@ + path,
            },
            None => AnswerView {
                status_line: "HTTP/1.1 404 NOT FOUND"@,
                filename: "www/default/404.html"@,
                log: "Response: 404 NOT FOUND. File: "@ + path,
            },
        }
    } else {
        AnswerView {
            status_line: "HTTP/1.1 400 BAD REQUEST"@,
            filename: "www/default/400.html"@,
            log: "Response: 400 BAD REQUEST."@,
        }
    }
}

/// Whether the answer to a request depends on the registry: it does for
/// every `GET` but the one for `/`.
pub open spec fn consults_registry(request: Seq<char>) -> bool {
    !"GET / HTTP/1.1\r\n"@.is_prefix_of(request) && "GET /"@.is_prefix_of(request)
}

/// A request that does not consult the registry gets the same answer
/// whatever the registry holds.
pub proof fn law_registry_unread(request: Seq<char>, one: Seq<FileEntry>, other: Seq<FileEntry>)
    requires
        !consults_registry(request),
    ensures
        answer_to(request, one) == answer_to(request, other),
{
}

/// The response on the wire: the status line, the length of the body in
/// bytes, an empty line, and the body.
pub open spec fn response_text(status_line: Seq<char>, contents: &str) -> Seq<char> {
    status_line + "\r\nContent-Length: "@ + decimal(contents.spec_bytes().len()) + "\r\n\r\n"@
        + contents@
}

/// Cuts the requested path out of a `GET` request.
pub fn path_of(request: &Vec<char>) -> (path: Vec<char>)
    ensures
        path@ == requested_path(request@),
{
    let get = chars_of("GET /");
    let nothing: Vec<char> = Vec::new();
    let stripped = replace(request, &get, &nothing);
    assert(nothing@ =~= Seq::<char>::empty());
    let mut full = chars_of("./www/");
    append_chars(&mut full, &stripped);
    let first = word(&full);
    let cut = find_char(&first, 0, '?');
    assert(first@.skip(0) =~= first@);
    let path = slice_of(&first, 0, cut);
    assert(path@ =~= first@.take(cut as int));
    path
}

/// A log entry: `head` followed by `path`.
fn entry(head: &str, path: &Vec<char>) -> (log: String)
    ensures
        log@ == head@ + path@,
{
    let mut line = chars_of(head);
    append_chars(&mut line, path);
    string_of(&line)
}

/// Tells whether the registry has to be read to answer `request`.
pub fn reads_registry(request: &str) -> (needed: bool)
    ensures
        needed == consults_registry(request@),
{
    let text = chars_of(request);
    !starts_with(&text, &chars_of("GET / HTTP/1.1\r\n")) && starts_with(&text, &chars_of("GET /"))
}

/// Decides what to answer to `request`, the text a client sent, given the
/// registry `files`.
pub fn handle_request(request: &str, files: &Vec<WebFile>) -> (answer: Answer)
    ensures
        answer@ == answer_to(request@, entries(files@)),
{
    let text = chars_of(request);
    if starts_with(&text, &chars_of("GET / HTTP/1.1\r\n")) {
        Answer {
            status_line: String::from_str("HTTP/1.1 200 OK"),
            filename: String::from_str("www/index.html"),
            log: String::from_str("Response: 200 OK. File: index.html"),
        }
    } else if starts_with(&text, &chars_of("GET /")) {
        let path = path_of(&text);
        let name = string_of(&path);
        match find(files, &name) {
            Some(true) => Answer {
                status_line: String::from_str("HTTP/1.1 200 OK"),
                filename: name,
                log: entry("Response: 200 OK. File: ", &path),
            },
            Some(false) => Answer {
                status_line: String::from_str("HTTP/1.1 403 FORBIDDEN"),
                filename: String::from_str("www/default/403.html"),
                log: entry("Response: 403 FORBIDDEN. File: ", &path),
            },
            None => Answer {
                status_line: String::from_str("HTTP/1.1 404 NOT FOUND"),
                filename: String::from_str("www/default/404.html"),
                log: entry("Response: 404 NOT FOUND. File: ", &path),
            },
        }
    } else {
        Answer {
            status_line: String::from_str("HTTP/1.1 400 BAD REQUEST"),
            filename: String::from_str("www/default/400.html"),
            log: String::from_str("Response: 400 BAD REQUEST."),
        }
    }
}

/// Frames the contents of the answered file as a response.
pub fn response(status_line: &str, contents: &str) -> (wire: String)
    ensures
        wire@ == response_text(status_line@, contents),
{
    let mut out = chars_of(status_line);
    append_chars(&mut out, &chars_of("\r\nContent-Length: "));
    push_decimal(&mut out, contents.as_bytes().len());
    append_chars(&mut out, &chars_of("\r\n\r\n"));
    append_chars(&mut out, &chars_of(contents));
    assert(out@ =~= response_text(status_line@, contents));
    string_of(&out)
}

} // verus!
