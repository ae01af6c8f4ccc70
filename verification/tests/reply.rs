use tickets_ui::http::http_response;
use tickets_ui::reply::Reply;

fn reply(bytes: &[u8]) -> Reply {
    let mut r = Reply::new();
    r.extend(bytes.to_vec());
    r
}

fn read(bytes: &[u8]) -> Result<(u16, String), String> {
    let r = reply(bytes);
    assert!(!r.ends_inside_character());
    r.read()
}

#[test]
fn a_reply_is_read() {
    let bytes = b"HTTP/1.1 201 Created\r\nContent-Length: 5\r\n\r\nhello";
    assert!(reply(bytes).complete());
    assert_eq!(read(bytes), Ok((201, "hello".to_string())));
}

#[test]
fn what_is_beyond_the_length_is_left_out() {
    let bytes = b"HTTP/1.1 200 OK\r\ncontent-LENGTH :  3 \r\n\r\nhello";
    assert!(reply(bytes).complete());
    assert_eq!(read(bytes), Ok((200, "hel".to_string())));
}

#[test]
fn less_than_announced_is_not_complete() {
    let bytes = b"HTTP/1.1 200 OK\r\nContent-Length: 9\r\n\r\nhello";
    assert!(!reply(bytes).complete());
    assert_eq!(read(bytes), Ok((200, "hello".to_string())));
}

#[test]
fn without_a_length_all_is_body() {
    let bytes = b"HTTP/1.1 200 OK\r\nX: 1\r\n\r\nhello";
    assert!(!reply(bytes).complete());
    assert_eq!(read(bytes), Ok((200, "hello".to_string())));
}

#[test]
fn an_unreadable_length_is_none() {
    for bad in ["x", "-1", "", "1 2", "99999999999999999999999"] {
        let bytes = format!("HTTP/1.1 200 OK\r\nContent-Length: {}\r\n\r\nhello", bad);
        assert!(!reply(bytes.as_bytes()).complete());
        assert_eq!(read(bytes.as_bytes()), Ok((200, "hello".to_string())));
    }
}

#[test]
fn the_last_length_counts() {
    let bytes = b"HTTP/1.1 200 OK\r\nContent-Length: 5\r\nContent-Length: 2\r\n\r\nhello";
    assert_eq!(read(bytes), Ok((200, "he".to_string())));
    let bytes = b"HTTP/1.1 200 OK\r\nContent-Length: 4\r\nContent-Length: x\r\n\r\nhello";
    assert_eq!(read(bytes), Ok((200, "hell".to_string())));
}

#[test]
fn without_the_end_of_the_headers_all_is_body() {
    assert_eq!(read(b""), Ok((0, "".to_string())));
    assert_eq!(
        read(b"HTTP/1.1 503 Busy\r\nContent-Length: 1\r\n"),
        Ok((503, "HTTP/1.1 503 Busy\r\nContent-Length: 1\r\n".to_string()))
    );
    assert!(!reply(b"").complete());
}

#[test]
fn a_reply_without_status_has_status_zero() {
    assert_eq!(read(b"nonsense\r\n\r\nbody"), Ok((0, "body".to_string())));
    assert_eq!(read(b"HTTP/1.1 70000 Big\r\n\r\n"), Ok((0, "".to_string())));
}

#[test]
fn a_reply_that_is_not_text() {
    let bytes = b"HTTP/1.1 200 OK\r\n\r\n\xff";
    assert!(!reply(bytes).ends_inside_character());
    assert_eq!(reply(bytes).read(), Err("non-utf8 response".to_string()));
}

#[test]
fn headers_that_are_not_text_announce_nothing() {
    let bytes = b"HTTP/1.1 200 \xff\r\nContent-Length: 1\r\n\r\nhello";
    assert!(!reply(bytes).complete());
}

#[test]
fn a_length_inside_a_character() {
    let bytes = "HTTP/1.1 200 OK\r\nContent-Length: 1\r\n\r\n\u{e9}".as_bytes();
    assert!(reply(bytes).ends_inside_character());
    let bytes = "HTTP/1.1 200 OK\r\nContent-Length: 2\r\n\r\n\u{e9}!".as_bytes();
    assert!(!reply(bytes).ends_inside_character());
    assert_eq!(read(bytes), Ok((200, "\u{e9}".to_string())));
}

#[test]
fn an_empty_body() {
    let bytes = b"HTTP/1.1 204 No Content\r\nContent-Length: 0\r\n\r\n";
    assert!(reply(bytes).complete());
    assert_eq!(read(bytes), Ok((204, "".to_string())));
}

#[test]
fn pieces_make_the_whole() {
    let bytes = b"HTTP/1.1 200 OK\r\nContent-Length: 5\r\n\r\nhello";
    let mut r = Reply::new();
    for (i, b) in bytes.iter().enumerate() {
        assert!(!r.complete(), "{}", i);
        r.extend(vec![*b]);
    }
    assert!(r.complete());
    assert_eq!(r.read(), Ok((200, "hello".to_string())));
}

#[test]
fn a_response_is_read_back() {
    for (status, body) in [(200, "ok\n"), (404, ""), (502, "\u{2014} \r\n\r\n Content-Length: 3")] {
        let bytes = http_response(status, "text/html; charset=utf-8", body.as_bytes().to_vec());
        assert!(reply(&bytes).complete());
        assert!(!reply(&bytes[..bytes.len() - 1]).complete());
        assert_eq!(read(&bytes), Ok((status, body.to_string())));
    }
}

#[test]
fn a_response_is_read_back_whatever_its_content_type() {
    for content_type in ["", "\u{e9}\u{2014}", "a\r", "a\nb", "a\r\nContent-Length: 99", "\r\n\rx"] {
        let bytes = http_response(200, content_type, "k\u{f6}".as_bytes().to_vec());
        assert!(reply(&bytes).complete(), "{:?}", content_type);
        assert!(!reply(&bytes[..bytes.len() - 1]).complete(), "{:?}", content_type);
        assert_eq!(read(&bytes), Ok((200, "k\u{f6}".to_string())), "{:?}", content_type);
    }
}
