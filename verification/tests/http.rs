use tickets_ui::http::{
    canned_500, find_subseq, http_response, parse_status_line, redirect_303,
};

#[test]
fn a_response_is_framed() {
    assert_eq!(
        http_response(200, "text/plain", b"ok\n".to_vec()),
        b"HTTP/1.1 200 OK\r\nContent-Type: text/plain\r\nContent-Length: 3\r\nConnection: close\r\n\r\nok\n".to_vec()
    );
    assert_eq!(
        http_response(404, "x", Vec::new()),
        b"HTTP/1.1 404 Not Found\r\nContent-Type: x\r\nContent-Length: 0\r\nConnection: close\r\n\r\n".to_vec()
    );
}

#[test]
fn every_status_has_its_reason() {
    for (status, reason) in [
        (200, "OK"),
        (201, "Created"),
        (303, "See Other"),
        (400, "Bad Request"),
        (404, "Not Found"),
        (500, "Internal Server Error"),
        (502, "Bad Gateway"),
        (0, "Error"),
        (418, "Error"),
        (65535, "Error"),
    ] {
        let r = String::from_utf8(http_response(status, "x", Vec::new())).unwrap();
        assert_eq!(r.lines().next().unwrap(), format!("HTTP/1.1 {} {}", status, reason));
    }
}

#[test]
fn the_body_is_kept_byte_for_byte() {
    let body: Vec<u8> = (0..=255).collect();
    let r = http_response(200, "x", body.clone());
    assert_eq!(&r[r.len() - 256..], &body[..]);
    assert!(find_subseq(&r, b"Content-Length: 256\r\n").is_some());
}

#[test]
fn a_redirect_names_its_location() {
    assert_eq!(
        redirect_303("/t/7"),
        b"HTTP/1.1 303 See Other\r\nLocation: /t/7\r\nContent-Length: 0\r\nConnection: close\r\n\r\n".to_vec()
    );
}

#[test]
fn the_canned_error_page() {
    assert_eq!(
        canned_500(),
        b"HTTP/1.1 500 Internal Server Error\r\nContent-Type: text/html; charset=utf-8\r\nContent-Length: 58\r\nConnection: close\r\n\r\n<!doctype html><title>error</title><h1>internal error</h1>".to_vec()
    );
}

#[test]
fn status_lines() {
    assert_eq!(parse_status_line("HTTP/1.1 200 OK\r\nX: y"), Some(200));
    assert_eq!(parse_status_line("HTTP/1.1 +201"), Some(201));
    assert_eq!(parse_status_line("  HTTP/1.1\t404\n200"), Some(404));
    assert_eq!(parse_status_line("HTTP/1.1 65535"), Some(65535));
    assert_eq!(parse_status_line("HTTP/1.1 65536"), None);
    assert_eq!(parse_status_line("HTTP/1.1 abc"), None);
    assert_eq!(parse_status_line("HTTP/1.1"), None);
    assert_eq!(parse_status_line("\nHTTP/1.1 200"), None);
    assert_eq!(parse_status_line(""), None);
    assert_eq!(parse_status_line("HTTP/1.1\u{b}200"), None);
}

#[test]
fn searching_bytes() {
    assert_eq!(find_subseq(b"ab\r\n\r\ncd\r\n\r\n", b"\r\n\r\n"), Some(2));
    assert_eq!(find_subseq(b"\r\n\r", b"\r\n\r\n"), None);
    assert_eq!(find_subseq(b"abc", b"c"), Some(2));
    assert_eq!(find_subseq(b"abc", b"abc"), Some(0));
    assert_eq!(find_subseq(b"abc", b""), None);
    assert_eq!(find_subseq(b"", b""), None);
    assert_eq!(find_subseq(b"", b"a"), None);
    assert_eq!(find_subseq(b"aab", b"ab"), Some(1));
}
