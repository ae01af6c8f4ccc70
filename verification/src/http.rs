//! HTTP/1.1 framing: the responses sent to browsers, and the two scanners used
//! on what the tickets API sends back.
use crate::text::decimal;
use crate::text::find;
use crate::text::find_from;
use crate::text::first_line;
use crate::text::first_line_chars;
use crate::text::law_numbers_are_read_in_decimal;
use crate::text::lemma_first_line_append;
use crate::text::lemma_two_words;
use crate::text::nth_word;
use crate::text::occurs_at;
use crate::text::parse_decimal;
use crate::text::read_decimal;
use crate::text::to_chars;
use crate::text::unsigned;
use crate::text::word;
use crate::text::write_decimal;
use crate::text::writes_number;
use crate::text::CharClass;
use vstd::prelude::*;
use vstd::slice::slice_subrange;
use vstd::utf8::encode_utf8;

verus! {

/// The content type of every page.
pub const HTML: &'static str = "text/html; charset=utf-8";

/// The reason phrase of a status code.
pub open spec fn reason_phrase(status: u16) -> Seq<char> {
    if status == 200 {
        "OK"@
    } else if status == 201 {
        "Created"@
    } else if status == 303 {
        "See Other"@
    } else if status == 400 {
        "Bad Request"@
    } else if status == 404 {
        "Not Found"@
    } else if status == 500 {
        "Internal Server Error"@
    } else if status == 502 {
        "Bad Gateway"@
    } else {
        "Error"@
    }
}

/// Status line and headers of a response, up to and including the blank line.
pub open spec fn response_head(status: u16, content_type: Seq<char>, length: nat) -> Seq<char> {
    "HTTP/1.1 "@ + decimal(status as nat) + " "@ + reason_phrase(status) + "\r\nContent-Type: "@
        + content_type + "\r\nContent-Length: "@ + decimal(length)
        + "\r\nConnection: close\r\n\r\n"@
}

/// The bytes of a response.
pub open spec fn response(status: u16, content_type: Seq<char>, body: Seq<u8>) -> Seq<u8> {
    encode_utf8(response_head(status, content_type, body.len())) + body
}

/// The bytes of a response whose body is an HTML text.
pub open spec fn html_response(status: u16, text: Seq<char>) -> Seq<u8> {
    response(status, HTML@, encode_utf8(text))
}

/// The bytes of a redirect to `location` after a form was accepted.
pub open spec fn redirect(location: Seq<char>) -> Seq<u8> {
    encode_utf8(
        "HTTP/1.1 303 See Other\r\nLocation: "@ + location
            + "\r\nContent-Length: 0\r\nConnection: close\r\n\r\n"@,
    )
}

/// Body of the response that stands in for every failure to answer.
pub const INTERNAL_ERROR_PAGE: &'static str =
    "<!doctype html><title>error</title><h1>internal error</h1>";

fn reason(status: u16) -> (r: &'static str)
    ensures
        r@ == reason_phrase(status),
{
    match status {
        200 => "OK",
        201 => "Created",
        303 => "See Other",
        400 => "Bad Request",
        404 => "Not Found",
        500 => "Internal Server Error",
        502 => "Bad Gateway",
        _ => "Error",
    }
}

/// Frames a body as a response that closes the connection.
pub fn http_response(status: u16, content_type: &str, body: Vec<u8>) -> (r: Vec<u8>)
    ensures
        r@ == response(status, content_type@, body@),
{
    let mut head = "HTTP/1.1 ".to_owned();
    head.append(write_decimal(status as u64).as_str());
    head.append(" ");
    head.append(reason(status));
    head.append("\r\nContent-Type: ");
    head.append(content_type);
    head.append("\r\nContent-Length: ");
    head.append(write_decimal(body.len() as u64).as_str());
    head.append("\r\nConnection: close\r\n\r\n");
    let mut out = head.as_str().as_bytes_vec();
    let mut rest = body;
    out.append(&mut rest);
    out
}

/// Redirects the browser to `location`.
pub fn redirect_303(location: &str) -> (r: Vec<u8>)
    ensures
        r@ == redirect(location@),
{
    let mut head = "HTTP/1.1 303 See Other\r\nLocation: ".to_owned();
    head.append(location);
    head.append("\r\nContent-Length: 0\r\nConnection: close\r\n\r\n");
    head.as_str().as_bytes_vec()
}

/// The response sent when a request could not be answered otherwise.
pub fn canned_500() -> (r: Vec<u8>)
    ensures
        r@ == html_response(500, INTERNAL_ERROR_PAGE@),
{
    http_response(500, HTML, INTERNAL_ERROR_PAGE.as_bytes_vec())
}

/// The status code of a reply: the second word of its first line, where that
/// is a decimal number that fits.
pub open spec fn status_of(text: Seq<char>) -> Option<u16> {
    match parse_decimal(
        word(first_line(text), CharClass::AsciiWhitespace, 1),
        u16::MAX as nat,
    ) {
        Some(n) => Some(n as u16),
        None => None,
    }
}

/// Reads the status code out of a status line.
pub fn parse_status_line(text: &str) -> (r: Option<u16>)
    ensures
        r == status_of(text@),
{
    let chars = to_chars(text);
    let line = first_line_chars(chars.as_slice());
    let code = nth_word(line, CharClass::AsciiWhitespace, 1);
    match read_decimal(code, u16::MAX as u64) {
        Some(n) => Some(n as u16),
        None => None,
    }
}

fn bytes_equal(a: &[u8], b: &[u8]) -> (r: bool)
    ensures
        r == (a@ == b@),
{
    if a.len() != b.len() {
        return false;
    }
    let mut i: usize = 0;
    while i < a.len()
        invariant
            i <= a@.len(),
            a@.len() == b@.len(),
            forall|j: int| 0 <= j < i ==> a@[j] == b@[j],
        decreases a@.len() - i,
    {
        if a[i] != b[i] {
            return false;
        }
        i += 1;
    }
    assert(a@ =~= b@);
    true
}

/// Position of the first occurrence of `needle`; none for an empty `needle`.
pub fn find_subseq(haystack: &[u8], needle: &[u8]) -> (r: Option<usize>)
    ensures
        match r {
            Some(i) => needle@.len() > 0 && find(haystack@, needle@) == Some(i as int),
            None => needle@.len() == 0 || find(haystack@, needle@) is None,
        },
        r matches Some(i) ==> occurs_at(haystack@, needle@, i as int) && (forall|j: int|
            j < i ==> !occurs_at(haystack@, needle@, j)),
        r is None && needle@.len() > 0 ==> forall|j: int| !occurs_at(haystack@, needle@, j),
{
    if needle.len() == 0 || needle.len() > haystack.len() {
        return None;
    }
    proof {
        crate::text::lemma_find(haystack@, needle@);
    }
    let last = haystack.len() - needle.len();
    let mut i: usize = 0;
    while i <= last
        invariant
            i <= last + 1,
            last == haystack@.len() - needle@.len(),
            0 < needle@.len(),
            haystack@.len() <= usize::MAX,
            find(haystack@, needle@) == find_from(haystack@, needle@, i as int),
            find(haystack@, needle@) matches Some(k) ==> occurs_at(haystack@, needle@, k) && (
            forall|j: int| j < k ==> !occurs_at(haystack@, needle@, j)),
            find(haystack@, needle@) is None ==> forall|j: int|
                !occurs_at(haystack@, needle@, j),
        decreases last + 1 - i,
    {
        if bytes_equal(slice_subrange(haystack, i, i + needle.len()), needle) {
            return Some(i);
        }
        i += 1;
    }
    None
}

// ---------------------------------------------------------------------------
// Laws
// ---------------------------------------------------------------------------
/// The status of a reply is the number after its first word, whatever that word
/// is and whatever follows the number.
pub proof fn law_status_is_read(version: Seq<char>, code: Seq<char>, status: u16, rest: Seq<char>)
    requires
        version.len() > 0,
        forall|i: int|
            0 <= i < version.len() ==> !CharClass::AsciiWhitespace.has(#[trigger] version[i]),
        writes_number(code, status as int),
        rest.len() > 0 ==> CharClass::AsciiWhitespace.has(rest[0]),
    ensures
        status_of(version + seq![' '] + code + rest) == Some(status),
{
    let class = CharClass::AsciiWhitespace;
    let front = version + seq![' '] + code;
    assert forall|i: int| 0 <= i < code.len() implies !class.has(#[trigger] code[i]) by {
        if unsigned(code) == code {
            assert('0' <= unsigned(code)[i] <= '9');
        } else if i > 0 {
            assert(unsigned(code)[i - 1] == code[i]);
            assert('0' <= unsigned(code)[i - 1] <= '9');
        }
    }
    assert(front.last() == code.last());
    assert forall|i: int| 0 <= i < front.len() implies front[i] != '\n' by {
        if i < version.len() {
            assert(front[i] == version[i]);
        } else if i > version.len() {
            assert(front[i] == code[i - version.len() - 1]);
        }
    }
    lemma_first_line_append(front, rest);
    lemma_two_words(version, seq![' '], code, first_line(rest), class);
    law_numbers_are_read_in_decimal(code, u16::MAX as nat);
}

/// Without a number after its first word, or with one that is too large, a reply
/// has no status.
pub proof fn law_no_status_is_read(version: Seq<char>, code: Seq<char>, rest: Seq<char>)
    requires
        version.len() > 0,
        forall|i: int|
            0 <= i < version.len() ==> !CharClass::AsciiWhitespace.has(#[trigger] version[i]),
        code.len() > 0,
        forall|i: int| 0 <= i < code.len() ==> !CharClass::AsciiWhitespace.has(#[trigger] code[i]),
        forall|n: int| #[trigger] writes_number(code, n) ==> n > u16::MAX,
        rest.len() > 0 ==> CharClass::AsciiWhitespace.has(rest[0]),
    ensures
        status_of(version + seq![' '] + code + rest) is None,
{
    let class = CharClass::AsciiWhitespace;
    let front = version + seq![' '] + code;
    assert(front.last() == code.last());
    assert forall|i: int| 0 <= i < front.len() implies front[i] != '\n' by {
        if i < version.len() {
            assert(front[i] == version[i]);
        } else if i > version.len() {
            assert(front[i] == code[i - version.len() - 1]);
        }
    }
    lemma_first_line_append(front, rest);
    lemma_two_words(version, seq![' '], code, first_line(rest), class);
    law_numbers_are_read_in_decimal(code, u16::MAX as nat);
}

} // verus!
