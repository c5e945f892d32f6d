use webserver::handler::{handle_request, path_of, reads_registry, response, Answer};
use webserver::registry::WebFile;
use webserver::text::{chars_of, string_of};

fn registry() -> Vec<WebFile> {
    vec![
        WebFile::new("./www".to_string(), true),
        WebFile::new("./www/index.html".to_string(), true),
        WebFile::new("./www/secret.html".to_string(), false),
        WebFile::new("./www/twice.html".to_string(), true),
        WebFile::new("./www/twice.html".to_string(), false),
        WebFile::new("./www/back.html".to_string(), false),
        WebFile::new("./www/back.html".to_string(), true),
    ]
}

/// A request as it arrives: the text read, in a buffer of 1024 bytes
/// otherwise filled with zeros.
fn buffer(sent: &str) -> String {
    let mut bytes = vec![0u8; 1024];
    bytes[..sent.len()].copy_from_slice(sent.as_bytes());
    String::from_utf8(bytes).unwrap()
}

fn check(answer: &Answer, status_line: &str, filename: &str, log: &str) {
    assert_eq!(answer.status_line, status_line);
    assert_eq!(answer.filename, filename);
    assert_eq!(answer.log, log);
}

#[test]
fn request_for_the_root_gets_the_index_page() {
    let answer = handle_request(&buffer("GET / HTTP/1.1\r\nHost: localhost\r\n\r\n"), &registry());
    check(&answer, "HTTP/1.1 200 OK", "www/index.html", "Response: 200 OK. File: index.html");
    let answer = handle_request("GET / HTTP/1.1\r\n", &Vec::new());
    check(&answer, "HTTP/1.1 200 OK", "www/index.html", "Response: 200 OK. File: index.html");
}

#[test]
fn public_file_is_served() {
    let answer = handle_request(&buffer("GET /index.html HTTP/1.1\r\n\r\n"), &registry());
    check(
        &answer,
        "HTTP/1.1 200 OK",
        "./www/index.html",
        "Response: 200 OK. File: ./www/index.html",
    );
}

#[test]
fn private_file_is_forbidden() {
    let answer = handle_request(&buffer("GET /secret.html HTTP/1.1\r\n\r\n"), &registry());
    check(
        &answer,
        "HTTP/1.1 403 FORBIDDEN",
        "www/default/403.html",
        "Response: 403 FORBIDDEN. File: ./www/secret.html",
    );
}

#[test]
fn unknown_file_is_not_found() {
    let answer = handle_request(&buffer("GET /nothing.html HTTP/1.1\r\n\r\n"), &registry());
    check(
        &answer,
        "HTTP/1.1 404 NOT FOUND",
        "www/default/404.html",
        "Response: 404 NOT FOUND. File: ./www/nothing.html",
    );
    let answer = handle_request(&buffer("GET /index.html HTTP/1.1\r\n\r\n"), &Vec::new());
    check(
        &answer,
        "HTTP/1.1 404 NOT FOUND",
        "www/default/404.html",
        "Response: 404 NOT FOUND. File: ./www/index.html",
    );
}

#[test]
fn anything_but_get_is_a_bad_request() {
    for sent in ["POST / HTTP/1.1\r\n\r\n", "", "GET", "get /index.html", " GET /index.html"] {
        let answer = handle_request(&buffer(sent), &registry());
        check(
            &answer,
            "HTTP/1.1 400 BAD REQUEST",
            "www/default/400.html",
            "Response: 400 BAD REQUEST.",
        );
    }
    let answer = handle_request("", &registry());
    check(&answer, "HTTP/1.1 400 BAD REQUEST", "www/default/400.html", "Response: 400 BAD REQUEST.");
}

#[test]
fn query_is_cut_off_the_path() {
    let answer = handle_request(&buffer("GET /index.html?a=1&b=2?c HTTP/1.1\r\n\r\n"), &registry());
    check(
        &answer,
        "HTTP/1.1 200 OK",
        "./www/index.html",
        "Response: 200 OK. File: ./www/index.html",
    );
    let answer = handle_request(&buffer("GET /?x HTTP/1.1\r\n\r\n"), &registry());
    check(
        &answer,
        "HTTP/1.1 404 NOT FOUND",
        "www/default/404.html",
        "Response: 404 NOT FOUND. File: ./www/",
    );
}

#[test]
fn last_record_of_a_path_decides() {
    let answer = handle_request(&buffer("GET /twice.html HTTP/1.1\r\n\r\n"), &registry());
    assert_eq!(answer.status_line, "HTTP/1.1 403 FORBIDDEN");
    let answer = handle_request(&buffer("GET /back.html HTTP/1.1\r\n\r\n"), &registry());
    assert_eq!(answer.status_line, "HTTP/1.1 200 OK");
    assert_eq!(answer.filename, "./www/back.html");
}

#[test]
fn every_get_prefix_is_struck_from_the_request() {
    // The same cut, written with the string methods of the standard library.
    fn by_std(request: &str) -> String {
        let text = format!("./www/{}", request.replace("GET /", ""));
        let mut path: &str = text.split_whitespace().next().unwrap();
        if path.contains("?") {
            let index = path.find("?").unwrap_or(path.len());
            path = path.split_at(index).0;
        }
        path.to_string()
    }
    let requests = [
        "GET /a/GET /b.html HTTP/1.1\r\n",
        "GET /index.html",
        "GET /",
        "GET / HTTP/1.0\r\n",
        "GET /caf\u{e9}.html?x=\u{e9} HTTP/1.1",
        "GET /a\u{a0}b HTTP/1.1",
        "GET /?",
        "GET /a b",
        "GET /\tb",
        "GET /dir/file.txt?GET /x",
    ];
    for request in requests {
        for sent in [request.to_string(), buffer(request)] {
            assert_eq!(string_of(&path_of(&chars_of(&sent))), by_std(&sent), "{:?}", request);
        }
    }
    assert_eq!(string_of(&path_of(&chars_of("GET /a/GET /b.html HTTP/1.1\r\n"))), "./www/a/b.html");
    assert_eq!(string_of(&path_of(&buffer("GET /x").chars().collect())).len(), "./www/x".len() + 1018);
}

#[test]
fn response_frames_the_body_with_its_length_in_bytes() {
    assert_eq!(
        response("HTTP/1.1 200 OK", "<h1>Hi</h1>"),
        "HTTP/1.1 200 OK\r\nContent-Length: 11\r\n\r\n<h1>Hi</h1>"
    );
    assert_eq!(response("HTTP/1.1 404 NOT FOUND", ""), "HTTP/1.1 404 NOT FOUND\r\nContent-Length: 0\r\n\r\n");
    // Five characters, seven bytes.
    assert_eq!(
        response("HTTP/1.1 200 OK", "gr\u{fc}\u{df}e"),
        "HTTP/1.1 200 OK\r\nContent-Length: 7\r\n\r\ngr\u{fc}\u{df}e"
    );
    let body = "x".repeat(12345);
    assert_eq!(
        response("S", &body),
        format!("{}\r\nContent-Length: {}\r\n\r\n{}", "S", body.len(), body)
    );
}

#[test]
fn registry_is_read_for_get_requests_other_than_the_root() {
    assert!(reads_registry("GET /index.html HTTP/1.1\r\n"));
    assert!(reads_registry("GET /"));
    assert!(reads_registry("GET / HTTP/1.1\n"));
    assert!(!reads_registry("GET / HTTP/1.1\r\nHost: x\r\n"));
    assert!(!reads_registry("POST /index.html HTTP/1.1\r\n"));
    assert!(!reads_registry(""));
    for sent in ["GET / HTTP/1.1\r\n", "PUT /x", ""] {
        let with = handle_request(sent, &registry());
        let without = handle_request(sent, &Vec::new());
        check(&with, &without.status_line, &without.filename, &without.log);
    }
}
