//! What the tickets API sends back, as far as it has arrived.
//!
//! A reply arrives in pieces. It is complete once the header section has
//! ended and as many bytes have followed as the header section announces; a
//! reply that announces no length runs until the API closes the connection.
use crate::http::find_subseq;
use crate::http::parse_status_line;
use crate::http::reason_phrase;
use crate::http::redirect;
use crate::http::response;
use crate::http::response_head;
use crate::http::status_of;
use crate::text::all_digits;
use crate::text::ascii_lower;
use crate::text::decimal;
use crate::text::find;
use crate::text::first_line;
use crate::text::lemma_decimal_round_trip;
use crate::text::lemma_find;
use crate::text::lemma_find_append;
use crate::text::lemma_find_is;
use crate::text::lemma_first_word;
use crate::text::lemma_split_first;
use crate::text::lemma_split_none;
use crate::text::occurs_at;
use crate::text::parse_decimal;
use crate::text::read_decimal;
use crate::text::same_ignoring_case;
use crate::text::spells_ignoring_case;
use crate::text::split;
use crate::text::split_once;
use crate::text::split_once_chars;
use crate::text::str_from_utf8;
use crate::text::to_chars;
use crate::text::trim;
use crate::text::trim_chars;
use crate::text::trim_end;
use crate::text::trim_start;
use crate::text::word;
use crate::text::words;
use crate::text::writes_number;
use crate::text::CharClass;
use vstd::prelude::*;
use vstd::slice::slice_subrange;
use vstd::utf8::decode_utf8;
use vstd::utf8::encode_utf8;
use vstd::utf8::is_char_boundary;
use vstd::utf8::valid_utf8;

verus! {

/// The bytes that end the header section: two line ends.
pub open spec fn header_terminator() -> Seq<u8> {
    seq![13u8, 10u8, 13u8, 10u8]
}

/// Where the header section ends, if it does.
pub open spec fn header_end(bytes: Seq<u8>) -> Option<int> {
    find(bytes, header_terminator())
}

/// A line end.
pub open spec fn line_end() -> Seq<char> {
    seq!['\r', '\n']
}

/// The length that one header line announces, if it does.
pub open spec fn line_content_length(line: Seq<char>) -> Option<nat> {
    match split_once(line, seq![':']) {
        Some((name, value)) => if same_ignoring_case(
            trim(name, CharClass::Whitespace),
            "content-length"@,
        ) {
            parse_decimal(trim(value, CharClass::Whitespace), usize::MAX as nat)
        } else {
            None
        },
        None => None,
    }
}

/// The length that the last of the lines that announces one announces.
pub open spec fn last_content_length(lines: Seq<Seq<char>>) -> Option<nat>
    decreases lines.len(),
{
    if lines.len() == 0 {
        None
    } else {
        match line_content_length(lines.last()) {
            Some(n) => Some(n),
            None => last_content_length(lines.drop_last()),
        }
    }
}

/// The text of a header section; empty where it is not UTF-8.
pub open spec fn header_text(header: Seq<u8>) -> Seq<char> {
    if valid_utf8(header) {
        decode_utf8(header)
    } else {
        seq![]
    }
}

/// The length that a header section announces; the largest number that a
/// length can be where it announces none.
pub open spec fn announced_length(header: Seq<u8>) -> nat {
    match last_content_length(split(header_text(header), line_end())) {
        Some(n) => n,
        None => usize::MAX as nat,
    }
}

/// Whether all of the reply has arrived.
pub open spec fn is_complete(bytes: Seq<u8>) -> bool {
    match header_end(bytes) {
        Some(i) => bytes.len() >= i + 4 + announced_length(bytes.take(i)),
        None => false,
    }
}

/// Where the body of a reply begins: after the header section, or at the
/// beginning where that does not end.
pub open spec fn body_start(bytes: Seq<u8>) -> int {
    match header_end(bytes) {
        Some(i) => i + 4,
        None => 0,
    }
}

/// Where the body of a reply ends: after the announced length or at the end of
/// what has arrived, whichever comes first.
pub open spec fn body_end(bytes: Seq<u8>) -> int {
    match header_end(bytes) {
        Some(i) => if announced_length(bytes.take(i)) < bytes.len() - (i + 4) {
            i + 4 + announced_length(bytes.take(i))
        } else {
            bytes.len() as int
        },
        None => bytes.len() as int,
    }
}

/// Whether the announced length ends the body in the middle of a character.
pub open spec fn splits_character(bytes: Seq<u8>) -> bool {
    valid_utf8(bytes) && !is_char_boundary(bytes, body_end(bytes))
}

/// The status of a reply; zero where its first line gives none.
pub open spec fn status_or_zero(text: Seq<char>) -> u16 {
    match status_of(text) {
        Some(status) => status,
        None => 0,
    }
}

/// What a reply says: its status and its body, or why it cannot be read.
pub open spec fn reply_of(bytes: Seq<u8>) -> Result<(u16, Seq<char>), Seq<char>> {
    if valid_utf8(bytes) {
        Ok(
            (
                status_or_zero(decode_utf8(bytes)),
                decode_utf8(bytes.subrange(body_start(bytes), body_end(bytes))),
            ),
        )
    } else {
        Err("non-utf8 response"@)
    }
}

/// The characters of an outcome of a call of the tickets API.
pub open spec fn outcome_view(outcome: Result<(u16, String), String>) -> Result<
    (u16, Seq<char>),
    Seq<char>,
> {
    match outcome {
        Ok((status, body)) => Ok((status, body@)),
        Err(message) => Err(message@),
    }
}

/// Right after an ASCII byte a character begins.
pub proof fn lemma_boundary_after_ascii(bytes: Seq<u8>, k: int)
    requires
        valid_utf8(bytes),
        0 < k <= bytes.len(),
        bytes[k - 1] < 0x80,
    ensures
        is_char_boundary(bytes, k),
    decreases bytes.len(),
{
    let n = vstd::utf8::length_of_first_scalar(bytes);
    let rest = vstd::utf8::pop_first_scalar(bytes);
    if k <= n {
        assert(k == n);
        assert(is_char_boundary(rest, 0));
    } else {
        assert(rest[k - n - 1] == bytes[k - 1]);
        lemma_boundary_after_ascii(rest, k - n);
    }
}

/// The header section ends inside the bytes, right after ASCII.
proof fn lemma_header_end(bytes: Seq<u8>)
    ensures
        header_end(bytes) matches Some(i) ==> 0 <= i && i + 4 <= bytes.len() && bytes[i + 3] == 10,
{
    lemma_find(bytes, header_terminator());
    if let Some(i) = header_end(bytes) {
        assert(bytes.subrange(i, i + 4)[3] == header_terminator()[3]);
    }
}

fn read_line_content_length(line: &[char]) -> (r: Option<usize>)
    ensures
        match r {
            Some(n) => line_content_length(line@) == Some(n as nat),
            None => line_content_length(line@) is None,
        },
{
    let colon: [char; 1] = [':'];
    assert(colon@ =~= seq![':']);
    match split_once_chars(line, &colon) {
        Some((name, value)) => {
            if spells_ignoring_case(trim_chars(name, CharClass::Whitespace), "content-length") {
                match read_decimal(trim_chars(value, CharClass::Whitespace), usize::MAX as u64) {
                    Some(n) => Some(n as usize),
                    None => None,
                }
            } else {
                None
            }
        },
        None => None,
    }
}

/// A line in front changes the last announcement only where there is no other.
proof fn lemma_last_content_length_front(line: Seq<char>, lines: Seq<Seq<char>>)
    ensures
        last_content_length(seq![line] + lines) == (match last_content_length(lines) {
            Some(n) => Some(n),
            None => line_content_length(line),
        }),
    decreases lines.len(),
{
    let all = seq![line] + lines;
    if lines.len() == 0 {
        assert(all.last() == line);
        assert(all.drop_last() =~= seq![]);
        assert(last_content_length(all.drop_last()) is None);
    } else {
        assert(all.last() == lines.last());
        assert(all.drop_last() =~= seq![line] + lines.drop_last());
        lemma_last_content_length_front(line, lines.drop_last());
    }
}

/// The length that a header section announces.
fn read_announced_length(header: &[u8]) -> (r: usize)
    ensures
        r == announced_length(header@),
{
    let text: &str = match str_from_utf8(header) {
        Some(text) => {
            proof {
                vstd::utf8::encode_utf8_decode_utf8(text@);
            }
            text
        },
        None => {
            proof {
                reveal_strlit("");
            }
            assert(""@ =~= seq![]);
            ""
        },
    };
    assert(text@ == header_text(header@));
    let chars = to_chars(text);
    let end: [char; 2] = ['\r', '\n'];
    assert(end@ =~= line_end());
    let mut rest: &[char] = chars.as_slice();
    let mut found: Option<usize> = None;
    let ghost lines = split(chars@, line_end());
    loop
        invariant
            end@ == line_end(),
            lines == split(header_text(header@), line_end()),
            last_content_length(lines) == (match last_content_length(split(rest@, line_end())) {
                Some(n) => Some(n),
                None => match found {
                    Some(n) => Some(n as nat),
                    None => None,
                },
            }),
        decreases rest@.len(),
    {
        let ghost pieces = split(rest@, line_end());
        proof {
            lemma_find(rest@, line_end());
        }
        match split_once_chars(rest, &end) {
            Some((line, tail)) => {
                proof {
                    assert(pieces == seq![line@] + split(tail@, line_end()));
                    lemma_last_content_length_front(line@, split(tail@, line_end()));
                }
                if let Some(n) = read_line_content_length(line) {
                    found = Some(n);
                }
                rest = tail;
            },
            None => {
                proof {
                    assert(pieces == seq![rest@]);
                    assert(pieces.drop_last() =~= seq![]);
                    assert(last_content_length(pieces.drop_last()) is None);
                    assert(pieces.last() == rest@);
                }
                if let Some(n) = read_line_content_length(rest) {
                    found = Some(n);
                }
                return match found {
                    Some(n) => n,
                    None => usize::MAX,
                };
            },
        }
    }
}

/// The part of a reply that has arrived, with what its header section told.
pub struct Reply {
    received: Vec<u8>,
    body_start: Option<usize>,
    content_length: Option<usize>,
}

impl View for Reply {
    type V = Seq<u8>;

    closed spec fn view(&self) -> Seq<u8> {
        self.received@
    }
}

impl Reply {
    /// The notes on the header section are those of the bytes that have arrived.
    pub closed spec fn wf(&self) -> bool {
        match header_end(self.received@) {
            Some(i) => {
                &&& self.body_start == Some((i + 4) as usize)
                &&& i + 4 <= usize::MAX
                &&& self.content_length == Some(
                    announced_length(self.received@.take(i)) as usize,
                )
                &&& announced_length(self.received@.take(i)) <= usize::MAX
            },
            None => self.body_start is None && self.content_length is None,
        }
    }

    /// A reply of which nothing has arrived.
    pub fn new() -> (r: Reply)
        ensures
            r.wf(),
            r@ == Seq::<u8>::empty(),
    {
        let received: Vec<u8> = Vec::new();
        proof {
            lemma_find(received@, header_terminator());
        }
        Reply { received, body_start: None, content_length: None }
    }

    /// Whether all of the reply has arrived.
    pub fn complete(&self) -> (r: bool)
        requires
            self.wf(),
        ensures
            r == is_complete(self@),
    {
        proof {
            lemma_header_end(self.received@);
        }
        match (self.body_start, self.content_length) {
            (Some(start), Some(length)) => self.received.len() - start >= length,
            _ => false,
        }
    }

    /// Takes in the next piece.
    pub fn extend(&mut self, chunk: Vec<u8>)
        requires
            old(self).wf(),
        ensures
            final(self).wf(),
            final(self)@ == old(self)@ + chunk@,
    {
        let mut more = chunk;
        self.received.append(&mut more);
        proof {
            lemma_find_append(old(self).received@, chunk@, header_terminator());
            lemma_header_end(old(self).received@);
            if let Some(i) = header_end(old(self).received@) {
                assert(self.received@.take(i) =~= old(self).received@.take(i));
            }
        }
        if self.body_start.is_none() {
            let terminator: [u8; 4] = [13, 10, 13, 10];
            assert(terminator@ =~= header_terminator());
            if let Some(i) = find_subseq(self.received.as_slice(), &terminator) {
                let length = self.received.len();
                assert(i + 4 <= length);
                let header = slice_subrange(self.received.as_slice(), 0, i);
                assert(header@ == self.received@.take(i as int));
                let announced = read_announced_length(header);
                self.body_start = Some(i + 4);
                self.content_length = Some(announced);
            }
        }
    }

    fn body_range(&self) -> (r: (usize, usize))
        requires
            self.wf(),
        ensures
            r.0 == body_start(self@),
            r.1 == body_end(self@),
            r.0 <= r.1 <= self@.len(),
    {
        let length = self.received.len();
        proof {
            lemma_header_end(self.received@);
        }
        match (self.body_start, self.content_length) {
            (Some(start), Some(announced)) => {
                if announced < length - start {
                    (start, start + announced)
                } else {
                    (start, length)
                }
            },
            _ => (0, length),
        }
    }

    /// Whether the announced length ends the body in the middle of a character.
    pub fn ends_inside_character(&self) -> (r: bool)
        requires
            self.wf(),
        ensures
            r == splits_character(self@),
    {
        let (_, end) = self.body_range();
        match str_from_utf8(self.received.as_slice()) {
            Some(text) => !text.is_char_boundary(end),
            None => false,
        }
    }

    /// Reads the reply: its status and its body.
    pub fn read(self) -> (r: Result<(u16, String), String>)
        requires
            self.wf(),
            !splits_character(self@),
        ensures
            outcome_view(r) == reply_of(self@),
    {
        let (start, end) = self.body_range();
        let text = match str_from_utf8(self.received.as_slice()) {
            Some(text) => text,
            None => {
                return Err("non-utf8 response".to_owned());
            },
        };
        let status = match parse_status_line(text) {
            Some(status) => status,
            None => 0,
        };
        let ghost bytes = self.received@;
        proof {
            vstd::utf8::encode_utf8_decode_utf8(text@);
            vstd::utf8::valid_utf8_split(bytes, end as int);
            lemma_header_end(bytes);
        }
        let (upto, _) = text.split_at(end);
        proof {
            assert(encode_utf8(upto@) == bytes.subrange(0, end as int));
            if start > 0 {
                assert(encode_utf8(upto@)[start - 1] == 10);
                lemma_boundary_after_ascii(encode_utf8(upto@), start as int);
            }
        }
        let (_, body) = upto.split_at(start);
        proof {
            assert(encode_utf8(body@) =~= bytes.subrange(start as int, end as int));
            vstd::utf8::encode_utf8_decode_utf8(body@);
        }
        Ok((status, body.to_owned()))
    }
}

// ---------------------------------------------------------------------------
// Laws
// ---------------------------------------------------------------------------
/// Printable ASCII.
pub open spec fn is_printable(s: Seq<char>) -> bool {
    forall|i: int| 0 <= i < s.len() ==> ' ' <= #[trigger] s[i] <= '~'
}

/// Whether there are two line ends in a row.
pub open spec fn has_blank_line(s: Seq<char>) -> bool {
    exists|i: int|
        0 <= i && i + 4 <= s.len() && #[trigger] s[i] == '\r' && s[i + 1] == '\n' && s[i + 2]
            == '\r' && s[i + 3] == '\n'
}

/// The status line of a response.
pub open spec fn status_line(status: u16) -> Seq<char> {
    "HTTP/1.1"@ + seq![' '] + decimal(status as nat) + seq![' '] + reason_phrase(status)
}

/// The lines of the header section of a response.
pub open spec fn response_lines(status: u16, content_type: Seq<char>, length: nat) -> Seq<
    Seq<char>,
> {
    seq![
        status_line(status),
        "Content-Type: "@ + content_type,
        "Content-Length: "@ + decimal(length),
        "Connection: close"@,
    ]
}

/// Four lines with line ends between them.
spec fn joined(lines: Seq<Seq<char>>) -> Seq<char> {
    lines[0] + line_end() + (lines[1] + line_end() + (lines[2] + line_end() + lines[3]))
}

proof fn lemma_reason_is_printable(status: u16)
    ensures
        is_printable(reason_phrase(status)),
{
    reveal_strlit("OK");
    reveal_strlit("Created");
    reveal_strlit("See Other");
    reveal_strlit("Bad Request");
    reveal_strlit("Not Found");
    reveal_strlit("Internal Server Error");
    reveal_strlit("Bad Gateway");
    reveal_strlit("Error");
}

/// The head of a response is made of its lines, all of them printable but for
/// the one that holds the content type.
proof fn lemma_head_lines(status: u16, content_type: Seq<char>, length: nat)
    ensures
        ({
            let lines = response_lines(status, content_type, length);
            &&& response_head(status, content_type, length) == joined(lines) + line_end()
                + line_end()
            &&& is_printable(lines[0]) && is_printable(lines[2]) && is_printable(lines[3])
        }),
{
    reveal_strlit("HTTP/1.1 ");
    reveal_strlit("HTTP/1.1");
    reveal_strlit(" ");
    reveal_strlit("\r\nContent-Type: ");
    reveal_strlit("Content-Type: ");
    reveal_strlit("\r\nContent-Length: ");
    reveal_strlit("Content-Length: ");
    reveal_strlit("\r\nConnection: close\r\n\r\n");
    reveal_strlit("Connection: close");
    lemma_reason_is_printable(status);
    lemma_decimal_round_trip(status as nat, status as nat);
    lemma_decimal_round_trip(length, length);
    let lines = response_lines(status, content_type, length);
    assert("HTTP/1.1 "@ =~= "HTTP/1.1"@ + seq![' ']);
    assert(" "@ =~= seq![' ']);
    assert("\r\nContent-Type: "@ =~= line_end() + "Content-Type: "@);
    assert("\r\nContent-Length: "@ =~= line_end() + "Content-Length: "@);
    assert("\r\nConnection: close\r\n\r\n"@ =~= line_end() + "Connection: close"@ + line_end()
        + line_end());
    assert(response_head(status, content_type, length) =~= joined(lines) + line_end()
        + line_end());
    let p = decimal(status as nat);
    let q = reason_phrase(status);
    assert forall|i: int| 0 <= i < lines[0].len() implies ' ' <= #[trigger] lines[0][i]
        <= '~' by {
        if 9 <= i < 9 + p.len() {
            assert(lines[0][i] == p[i - 9]);
        } else if i > 9 + p.len() {
            assert(lines[0][i] == q[i - 10 - p.len()]);
        }
    }
    let d = decimal(length);
    assert forall|i: int| 0 <= i < lines[2].len() implies ' ' <= #[trigger] lines[2][i]
        <= '~' by {
        if i >= 16 {
            assert(lines[2][i] == d[i - 16]);
        }
    }
    assert(is_printable(lines[3]));
}

/// Up to the end of the header section there is no blank line, unless the
/// content type makes one.
proof fn lemma_no_blank_line(status: u16, content_type: Seq<char>, length: nat)
    requires
        !has_blank_line(content_type + line_end()),
    ensures
        !has_blank_line(
            joined(response_lines(status, content_type, length)) + line_end() + seq!['\r'],
        ),
{
    let lines = response_lines(status, content_type, length);
    let s = joined(lines) + line_end() + seq!['\r'];
    lemma_head_lines(status, content_type, length);
    reveal_strlit("Content-Type: ");
    reveal_strlit("Content-Length: ");
    reveal_strlit("Connection: close");
    let a = lines[0].len() as int;
    let b = a + 2 + lines[1].len();
    let c = b + 2 + lines[2].len();
    let d = c + 2 + lines[3].len();
    assert(d == joined(lines).len());
    if has_blank_line(s) {
        let j = choose|j: int|
            0 <= j && j + 4 <= s.len() && #[trigger] s[j] == '\r' && s[j + 1] == '\n' && s[j + 2]
                == '\r' && s[j + 3] == '\n';
        if j < a {
            assert(s[j] == lines[0][j]);
        } else if j == a {
            assert(s[j + 2] == lines[1][0]);
        } else if j == a + 1 {
            assert(s[j] == '\n');
        } else if j < a + 16 {
            assert(s[j] == "Content-Type: "@[j - a - 2]);
        } else if j < b - 1 {
            let t = content_type + line_end();
            let i = j - a - 16;
            assert(s[j] == t[i] && s[j + 1] == t[i + 1]);
            assert(s[j + 2] == t[i + 2] && s[j + 3] == t[i + 3]);
        } else if j == b - 1 {
            assert(s[j + 1] == '\r');
        } else if j == b {
            assert(s[j + 2] == lines[2][0]);
        } else if j == b + 1 {
            assert(s[j] == '\n');
        } else if j < c {
            assert(s[j] == lines[2][j - b - 2]);
        } else if j == c {
            assert(s[j + 2] == lines[3][0]);
        } else if j == c + 1 {
            assert(s[j] == '\n');
        } else {
            assert(s[j] == lines[3][j - c - 2]);
        }
    }
}

/// Text before a line end and text after it are split into lines separately.
pub proof fn lemma_split_at_line_end(before: Seq<char>, after: Seq<char>)
    ensures
        split(before + line_end() + after, line_end()) == split(before, line_end()) + split(
            after,
            line_end(),
        ),
    decreases before.len(),
{
    let end = line_end();
    let s = before + end + after;
    lemma_find(before, end);
    match find(before, end) {
        Some(i) => {
            let tail = before.skip(i + 2);
            assert(s =~= before + (end + after));
            lemma_find_append(before, end + after, end);
            lemma_split_at_line_end(tail, after);
            assert(s.take(i) =~= before.take(i));
            assert(s.skip(i + 2) =~= tail + end + after);
        },
        None => {
            let n = before.len() as int;
            assert(s.subrange(n, n + 2) =~= end);
            assert forall|j: int| 0 <= j < n implies !occurs_at(s, end, j) by {
                if occurs_at(s, end, j) {
                    assert(s.subrange(j, j + 2)[1] == s[j + 1]);
                    assert(j + 2 <= n);
                    assert(before.subrange(j, j + 2) =~= s.subrange(j, j + 2));
                    assert(occurs_at(before, end, j));
                }
            }
            lemma_find_is(s, end, n);
            assert(s.take(n) =~= before);
            assert(s.skip(n + 2) =~= after);
        },
    }
}

/// The last two of the lines into which the head of a response is split are the
/// last two that it is made of.
proof fn lemma_split_lines(lines: Seq<Seq<char>>)
    requires
        lines.len() == 4,
        is_printable(lines[2]),
        is_printable(lines[3]),
    ensures
        split(joined(lines), line_end()) == split(lines[0], line_end()) + split(
            lines[1],
            line_end(),
        ) + seq![lines[2], lines[3]],
{
    let end = line_end();
    assert(end[0] == '\r');
    let c = lines[2] + end + lines[3];
    let b = lines[1] + end + c;
    lemma_split_at_line_end(lines[0], b);
    lemma_split_at_line_end(lines[1], c);
    lemma_split_first(lines[2], end, lines[3]);
    lemma_split_none(lines[3], end);
    assert(split(c, end) =~= seq![lines[2], lines[3]]);
    assert(split(joined(lines), end) =~= split(lines[0], end) + split(lines[1], end) + seq![
        lines[2],
        lines[3],
    ]);
}

/// Text that neither begins nor ends in the class is not trimmed, but for one
/// leading space.
proof fn lemma_trim_digits(d: Seq<char>)
    requires
        d.len() > 0,
        all_digits(d),
    ensures
        trim(seq![' '] + d, CharClass::Whitespace) == d,
{
    let class = CharClass::Whitespace;
    let s = seq![' '] + d;
    crate::text::lemma_scan(s, 0, class, false);
    let k = crate::text::scan(s, 0, class, false);
    assert(s[0] == ' ');
    assert(s[1] == d[0]);
    assert(crate::text::is_digit(d[0]));
    assert(k == 1);
    assert(trim_start(s, class) =~= d);
    assert(crate::text::is_digit(d.last()));
    assert(trim_end(d, class) == d);
}

/// Text without the class at its ends is not trimmed.
proof fn lemma_trim_nothing(s: Seq<char>, class: CharClass)
    requires
        s.len() > 0,
        !class.has(s[0]),
        !class.has(s.last()),
    ensures
        trim(s, class) == s,
{
    assert(trim_start(s, class) =~= s);
}

/// The line that announces a length.
pub proof fn lemma_announcing_line(length: nat)
    requires
        length <= usize::MAX,
    ensures
        line_content_length("Content-Length: "@ + decimal(length)) == Some(length),
{
    reveal_strlit("Content-Length: ");
    reveal_strlit("Content-Length");
    reveal_strlit("content-length");
    let lower = |c: char| ascii_lower(c);
    let colon = seq![':'];
    let d = decimal(length);
    lemma_decimal_round_trip(length, usize::MAX as nat);
    let value = seq![' '] + d;
    assert("Content-Length: "@ + d =~= "Content-Length"@ + colon + value);
    lemma_split_first("Content-Length"@, colon, value);
    lemma_trim_nothing("Content-Length"@, CharClass::Whitespace);
    lemma_trim_digits(d);
    assert("Content-Length"@.map_values(lower) =~= "content-length"@.map_values(lower));
}

/// The last two lines of a header section announce the length, whatever stands
/// before them.
proof fn lemma_lines_announce(before: Seq<Seq<char>>, length: nat)
    requires
        length <= usize::MAX,
    ensures
        last_content_length(
            before + seq!["Content-Length: "@ + decimal(length), "Connection: close"@],
        ) == Some(length),
{
    let announcing = "Content-Length: "@ + decimal(length);
    let lines = before + seq![announcing, "Connection: close"@];
    reveal_strlit("Connection: close");
    reveal_strlit("Connection");
    reveal_strlit("content-length");
    reveal_strlit(" close");
    let lower = |c: char| ascii_lower(c);
    let colon = seq![':'];
    // the last line announces nothing
    assert("Connection: close"@ =~= "Connection"@ + colon + " close"@);
    lemma_split_first("Connection"@, colon, " close"@);
    lemma_trim_nothing("Connection"@, CharClass::Whitespace);
    assert("Connection"@.map_values(lower).len() != "content-length"@.map_values(lower).len());
    assert(line_content_length(lines.last()) is None);
    // the line before it does
    lemma_announcing_line(length);
    assert(lines.drop_last().last() == announcing);
    reveal_with_fuel(last_content_length, 2);
}

/// The second word of the status line is the status.
proof fn lemma_status_line(status: u16)
    ensures
        word(status_line(status), CharClass::AsciiWhitespace, 1) == decimal(status as nat),
{
    let class = CharClass::AsciiWhitespace;
    reveal_strlit("HTTP/1.1");
    let version = "HTTP/1.1"@;
    let d = decimal(status as nat);
    let after = seq![' '] + reason_phrase(status);
    let middle = seq![' '] + d + after;
    lemma_decimal_round_trip(status as nat, status as nat);
    assert forall|i: int| 0 <= i < d.len() implies !class.has(#[trigger] d[i]) by {
        assert(crate::text::is_digit(d[i]));
    }
    assert(status_line(status) =~= Seq::<char>::empty() + version + middle);
    lemma_first_word(seq![], version, middle, class);
    lemma_first_word(seq![' '], d, after, class);
    assert(words(status_line(status), class) =~= seq![version] + (seq![d] + words(after, class)));
}

/// The bytes of two texts in a row are the bytes of the one and the bytes of the
/// other.
pub proof fn lemma_encode_append(a: Seq<char>, b: Seq<char>)
    ensures
        encode_utf8(a + b) == encode_utf8(a) + encode_utf8(b),
    decreases a.len(),
{
    if a.len() == 0 {
        assert(a + b =~= b);
        assert(encode_utf8(a + b) =~= encode_utf8(a) + encode_utf8(b));
    } else {
        lemma_encode_append(a.drop_first(), b);
        assert((a + b).drop_first() =~= a.drop_first() + b);
        assert(encode_utf8(a + b) =~= encode_utf8(a) + encode_utf8(b));
    }
}

/// A text whose bytes begin with one of ASCII begins with that character.
proof fn lemma_first_ascii(s: Seq<char>)
    requires
        encode_utf8(s).len() > 0,
        encode_utf8(s)[0] < 0x80,
    ensures
        s.len() > 0,
        s[0] == encode_utf8(s)[0] as u32 as char,
        encode_utf8(s.drop_first()) == encode_utf8(s).drop_first(),
{
    let bytes = encode_utf8(s);
    vstd::utf8::encode_utf8_first_scalar(s);
    let n = vstd::utf8::length_of_first_scalar(bytes);
    assert(n == 1);
    let b = bytes[0];
    assert(b < 0x80 ==> (b & 0x7f) == b) by (bit_vector);
    vstd::utf8::char_u32_cast(s[0], b as u32);
    assert(bytes.drop_first() =~= encode_utf8(s.drop_first()));
}

/// Two line ends in a row among the bytes of a text are two line ends in a row
/// in the text.
proof fn lemma_blank_line_bytes(s: Seq<char>, j: int)
    requires
        occurs_at(encode_utf8(s), header_terminator(), j),
    ensures
        has_blank_line(s),
    decreases s.len(),
{
    let bytes = encode_utf8(s);
    let found = bytes.subrange(j, j + 4);
    assert(found[0] == bytes[j] && found[1] == bytes[j + 1]);
    assert(found[2] == bytes[j + 2] && found[3] == bytes[j + 3]);
    vstd::utf8::encode_utf8_first_scalar(s);
    let n = vstd::utf8::length_of_first_scalar(bytes);
    let rest = s.drop_first();
    if j < n {
        assert(j == 0);
        let s2 = rest.drop_first();
        let s3 = s2.drop_first();
        lemma_first_ascii(s);
        lemma_first_ascii(rest);
        lemma_first_ascii(s2);
        lemma_first_ascii(s3);
        assert(s[0] == '\r' && s[1] == rest[0] && s[2] == s2[0] && s[3] == s3[0]);
    } else {
        let tail = encode_utf8(rest);
        assert(bytes == vstd::utf8::encode_scalar(s[0] as u32) + tail);
        assert(tail.subrange(j - n, j - n + 4) =~= found);
        lemma_blank_line_bytes(rest, j - n);
        let i = choose|i: int|
            0 <= i && i + 4 <= rest.len() && #[trigger] rest[i] == '\r' && rest[i + 1] == '\n'
                && rest[i + 2] == '\r' && rest[i + 3] == '\n';
        assert(s[i + 1] == rest[i] && s[i + 2] == rest[i + 1]);
        assert(s[i + 3] == rest[i + 2] && s[i + 4] == rest[i + 3]);
    }
}

/// Text without a carriage return in front brings no blank line.
pub proof fn lemma_no_blank_line_after(front: Seq<char>, s: Seq<char>)
    requires
        !front.contains('\r'),
        !has_blank_line(s),
    ensures
        !has_blank_line(front + s),
{
    let t = front + s;
    if has_blank_line(t) {
        let j = choose|j: int|
            0 <= j && j + 4 <= t.len() && #[trigger] t[j] == '\r' && t[j + 1] == '\n' && t[j + 2]
                == '\r' && t[j + 3] == '\n';
        let k = j - front.len();
        if k < 0 {
            assert(t[j] == front[j]);
        } else {
            assert(t[j] == s[k] && t[j + 1] == s[k + 1]);
            assert(t[j + 2] == s[k + 2] && t[j + 3] == s[k + 3]);
        }
    }
}

/// Text that begins with neither half of a line end brings no blank line with
/// what stands before it.
pub proof fn lemma_no_blank_line_before(s: Seq<char>, rest: Seq<char>)
    requires
        !has_blank_line(s),
        !has_blank_line(rest),
        rest.len() > 0,
        rest[0] != '\r' && rest[0] != '\n',
    ensures
        !has_blank_line(s + rest),
{
    let t = s + rest;
    let n = s.len() as int;
    if has_blank_line(t) {
        let j = choose|j: int|
            0 <= j && j + 4 <= t.len() && #[trigger] t[j] == '\r' && t[j + 1] == '\n' && t[j + 2]
                == '\r' && t[j + 3] == '\n';
        if j + 4 <= n {
            assert(t[j] == s[j] && t[j + 1] == s[j + 1]);
            assert(t[j + 2] == s[j + 2] && t[j + 3] == s[j + 3]);
        } else if j >= n {
            let k = j - n;
            assert(t[j] == rest[k] && t[j + 1] == rest[k + 1]);
            assert(t[j + 2] == rest[k + 2] && t[j + 3] == rest[k + 3]);
        } else {
            assert(t[n] == rest[0]);
        }
    }
}

/// Where neither a line nor what follows it brings a blank line, both together
/// bring none, unless the one that follows begins with a line end.
pub proof fn lemma_no_blank_line_between(line: Seq<char>, s: Seq<char>)
    requires
        !has_blank_line(line + line_end()),
        !has_blank_line(s),
        s.len() > 0,
        s[0] != '\r',
    ensures
        !has_blank_line(line + line_end() + s),
{
    let t = line + line_end() + s;
    let first = line + line_end();
    let n = line.len() as int;
    if has_blank_line(t) {
        let j = choose|j: int|
            0 <= j && j + 4 <= t.len() && #[trigger] t[j] == '\r' && t[j + 1] == '\n' && t[j + 2]
                == '\r' && t[j + 3] == '\n';
        let k = j - (n + 2);
        if j + 4 <= n + 2 {
            assert(t[j] == first[j] && t[j + 1] == first[j + 1]);
            assert(t[j + 2] == first[j + 2] && t[j + 3] == first[j + 3]);
        } else if k >= 0 {
            assert(t[j] == s[k] && t[j + 1] == s[k + 1]);
            assert(t[j + 2] == s[k + 2] && t[j + 3] == s[k + 3]);
        } else if j == n - 1 {
            assert(t[j + 1] == '\r');
        } else if j == n {
            assert(t[j + 2] == s[0]);
        } else {
            assert(t[j] == '\n');
        }
    }
}

/// A text without line feeds is one line.
pub proof fn lemma_one_line(s: Seq<char>)
    requires
        !s.contains('\n'),
    ensures
        split(s, line_end()) == seq![s],
        !has_blank_line(s + line_end()),
{
    let end = line_end();
    assert forall|j: int| 0 <= j implies !occurs_at(s, end, j) by {
        if occurs_at(s, end, j) {
            assert(s.subrange(j, j + 2)[1] == s[j + 1]);
        }
    }
    crate::text::lemma_find_none(s, end);
    let t = s + end;
    if has_blank_line(t) {
        let j = choose|j: int|
            0 <= j && j + 4 <= t.len() && #[trigger] t[j] == '\r' && t[j + 1] == '\n' && t[j + 2]
                == '\r' && t[j + 3] == '\n';
        assert(t[j + 1] == s[j + 1]);
    }
}

/// A message of a header section, a blank line and a body is taken apart into
/// just these, unless the header section brings a blank line of its own.
pub proof fn lemma_head_and_body(head: Seq<char>, body: Seq<u8>)
    requires
        !has_blank_line(head + line_end() + seq!['\r']),
    ensures
        ({
            let bytes = encode_utf8(head + line_end() + line_end()) + body;
            let n = encode_utf8(head).len() as int;
            &&& header_end(bytes) == Some(n)
            &&& bytes.take(n) == encode_utf8(head)
            &&& header_text(bytes.take(n)) == head
            &&& bytes[n + 3] == 10
            &&& bytes.skip(n + 4) == body
            &&& bytes.len() == n + 4 + body.len()
        }),
{
    let blank = line_end() + line_end();
    let whole = head + line_end() + line_end();
    let most = head + line_end() + seq!['\r'];
    let bytes = encode_utf8(whole) + body;
    let n = encode_utf8(head).len() as int;
    assert(encode_utf8(blank) =~= header_terminator()) by {
        vstd::utf8::is_ascii_chars_encode_utf8(blank);
    }
    assert(encode_utf8(seq!['\n']).len() == 1) by {
        vstd::utf8::is_ascii_chars_encode_utf8(seq!['\n']);
    }
    assert(whole =~= head + blank);
    lemma_encode_append(head, blank);
    assert(whole =~= most + seq!['\n']);
    lemma_encode_append(most, seq!['\n']);
    assert(bytes.subrange(n, n + 4) =~= header_terminator());
    assert forall|j: int| 0 <= j < n implies !occurs_at(bytes, header_terminator(), j) by {
        if occurs_at(bytes, header_terminator(), j) {
            assert(encode_utf8(most).subrange(j, j + 4) =~= bytes.subrange(j, j + 4));
            lemma_blank_line_bytes(most, j);
        }
    }
    lemma_find_is(bytes, header_terminator(), n);
    assert(bytes.take(n) =~= encode_utf8(head));
    vstd::utf8::encode_utf8_valid_utf8(head);
    vstd::utf8::encode_utf8_decode_utf8(head);
    assert(bytes[n + 3] == header_terminator()[3]);
    assert(bytes.skip(n + 4) =~= body);
}

/// A response is read back by the rules by which replies are read: its header
/// section announces exactly the length of its body, and it says the status and
/// the body that it was made of. The only content types left out are those that
/// put a blank line into the header section.
pub proof fn law_response_is_read_back(status: u16, content_type: Seq<char>, body: Seq<u8>)
    requires
        !has_blank_line(content_type + line_end()),
        valid_utf8(body),
        body.len() <= usize::MAX,
    ensures
        ({
            let bytes = response(status, content_type, body);
            &&& header_end(bytes) matches Some(i)
            &&& announced_length(bytes.take(i)) == body.len()
            &&& bytes.skip(i + 4) == body
            &&& is_complete(bytes)
            &&& !splits_character(bytes)
            &&& reply_of(bytes) == Ok::<(u16, Seq<char>), Seq<char>>((status, decode_utf8(body)))
        }),
{
    let lines = response_lines(status, content_type, body.len());
    let head = response_head(status, content_type, body.len());
    let inner = joined(lines);
    let n = encode_utf8(inner).len() as int;
    let wire = encode_utf8(head);
    let bytes = response(status, content_type, body);
    lemma_head_lines(status, content_type, body.len());
    lemma_no_blank_line(status, content_type, body.len());
    lemma_head_and_body(inner, body);
    // the lines announce the length of the body
    lemma_split_lines(lines);
    lemma_lines_announce(
        split(lines[0], line_end()) + split(lines[1], line_end()),
        body.len(),
    );
    // what the whole says
    vstd::utf8::encode_utf8_valid_utf8(head);
    vstd::utf8::encode_utf8_decode_utf8(head);
    vstd::utf8::valid_utf8_concat(wire, body);
    vstd::utf8::is_char_boundary_start_end_of_seq(bytes);
    lemma_boundary_after_ascii(bytes, n + 4);
    vstd::utf8::decode_utf8_split(bytes, n + 4);
    assert(bytes.subrange(0, n + 4) =~= wire);
    assert(bytes.subrange(n + 4, bytes.len() as int) =~= body);
    let text = decode_utf8(bytes);
    let first = lines[0];
    let rest = text.skip(first.len() as int + 2);
    assert(text =~= (first + seq!['\r']) + seq!['\n'] + rest) by {
        assert(text == head + decode_utf8(body));
    }
    assert(is_printable(first));
    lemma_split_first(first + seq!['\r'], seq!['\n'], rest);
    assert(first_line(text) =~= first);
    lemma_status_line(status);
    lemma_decimal_round_trip(status as nat, u16::MAX as nat);
}

/// A response says, line by line, what it carries: its status, the type and the
/// length of its body, and that the connection ends with it.
pub proof fn law_response_says_what_it_carries(
    status: u16,
    content_type: Seq<char>,
    body: Seq<u8>,
)
    requires
        !content_type.contains('\n'),
    ensures
        ({
            let bytes = response(status, content_type, body);
            &&& header_end(bytes) matches Some(i)
            &&& bytes.skip(i + 4) == body
            &&& split(header_text(bytes.take(i)), line_end()) == seq![
                "HTTP/1.1"@ + seq![' '] + decimal(status as nat) + seq![' '] + reason_phrase(
                    status,
                ),
                "Content-Type: "@ + content_type,
                "Content-Length: "@ + decimal(body.len()),
                "Connection: close"@,
            ]
        }),
{
    let lines = response_lines(status, content_type, body.len());
    reveal_strlit("Content-Type: ");
    assert forall|i: int| 0 <= i < lines[1].len() implies lines[1][i] != '\n' by {
        if i >= 14 {
            assert(lines[1][i] == content_type[i - 14]);
        }
    }
    lemma_head_lines(status, content_type, body.len());
    lemma_one_line(content_type);
    lemma_no_blank_line(status, content_type, body.len());
    lemma_head_and_body(joined(lines), body);
    lemma_split_lines(lines);
    lemma_one_line(lines[0]);
    lemma_one_line(lines[1]);
    assert(split(joined(lines), line_end()) =~= lines);
}

/// A redirect says where to go, in a header of its own, and carries nothing.
pub proof fn law_redirect_names_the_location(location: Seq<char>)
    requires
        !location.contains('\n'),
    ensures
        ({
            let bytes = redirect(location);
            &&& header_end(bytes) matches Some(i)
            &&& bytes.skip(i + 4).len() == 0
            &&& split(header_text(bytes.take(i)), line_end()) == seq![
                "HTTP/1.1 303 See Other"@,
                "Location: "@ + location,
                "Content-Length: 0"@,
                "Connection: close"@,
            ]
        }),
{
    reveal_strlit("HTTP/1.1 303 See Other\r\nLocation: ");
    reveal_strlit("HTTP/1.1 303 See Other");
    reveal_strlit("Location: ");
    reveal_strlit("\r\nContent-Length: 0\r\nConnection: close\r\n\r\n");
    reveal_strlit("Content-Length: 0");
    reveal_strlit("Connection: close");
    let end = line_end();
    let a = "HTTP/1.1 303 See Other"@;
    let b = "Location: "@ + location;
    let c = "Content-Length: 0"@;
    let d = "Connection: close"@;
    let head = a + end + (b + end + (c + end + d));
    assert("HTTP/1.1 303 See Other\r\nLocation: "@ =~= a + end + "Location: "@);
    assert("\r\nContent-Length: 0\r\nConnection: close\r\n\r\n"@ =~= end + c + end + d + end + end);
    let text = "HTTP/1.1 303 See Other\r\nLocation: "@ + location
        + "\r\nContent-Length: 0\r\nConnection: close\r\n\r\n"@;
    assert(text =~= head + end + end);
    assert forall|i: int| 0 <= i < b.len() implies b[i] != '\n' by {
        if i >= 10 {
            assert(b[i] == location[i - 10]);
        }
    }
    lemma_one_line(a);
    lemma_one_line(b);
    lemma_one_line(c);
    lemma_one_line(d);
    let e = end + seq!['\r'];
    assert(!has_blank_line(e));
    lemma_no_blank_line_after(d, e);
    lemma_no_blank_line_between(c, d + e);
    lemma_no_blank_line_between(b, c + end + (d + e));
    lemma_no_blank_line_between(a, b + end + (c + end + (d + e)));
    assert(a + end + (b + end + (c + end + (d + e))) =~= head + end + seq!['\r']);
    lemma_head_and_body(head, seq![]);
    assert(encode_utf8(text) + Seq::<u8>::empty() =~= redirect(location));
    lemma_split_at_line_end(a, b + end + (c + end + d));
    lemma_split_at_line_end(b, c + end + d);
    lemma_split_at_line_end(c, d);
    assert(split(head, end) =~= seq![a, b, c, d]);
}

/// Padding at both ends is trimmed off.
proof fn lemma_trim_padding(front: Seq<char>, s: Seq<char>, back: Seq<char>, class: CharClass)
    requires
        forall|i: int| 0 <= i < front.len() ==> class.has(#[trigger] front[i]),
        forall|i: int| 0 <= i < back.len() ==> class.has(#[trigger] back[i]),
        s.len() > 0,
        !class.has(s[0]),
        !class.has(s.last()),
    ensures
        trim(front + s + back, class) == s,
    decreases back.len(),
{
    let t = front + s + back;
    if back.len() > 0 {
        let less = back.drop_last();
        assert forall|i: int| 0 <= i < less.len() implies class.has(#[trigger] less[i]) by {
            assert(less[i] == back[i]);
        }
        lemma_trim_padding(front, s, less, class);
        let k = crate::text::scan(t, 0, class, false);
        let u = front + s + less;
        let m = crate::text::scan(u, 0, class, false);
        lemma_scan_padding(front, s + back, class);
        lemma_scan_padding(front, s + less, class);
        assert(front + (s + back) =~= t);
        assert(front + (s + less) =~= u);
        assert(t.skip(k).drop_last() =~= u.skip(m));
        assert(t.skip(k).last() == back.last());
    } else {
        lemma_scan_padding(front, s, class);
        assert(t =~= front + s);
        assert(t.skip(front.len() as int) =~= s);
    }
}

proof fn lemma_scan_padding(front: Seq<char>, s: Seq<char>, class: CharClass)
    requires
        forall|i: int| 0 <= i < front.len() ==> class.has(#[trigger] front[i]),
        s.len() > 0,
        !class.has(s[0]),
    ensures
        crate::text::scan(front + s, 0, class, false) == front.len(),
{
    let t = front + s;
    let k = crate::text::scan(t, 0, class, false);
    crate::text::lemma_scan(t, 0, class, false);
    assert(t[front.len() as int] == s[0]);
    if k < front.len() {
        assert(t[k] == front[k]);
    }
}

/// Which header lines announce a length, and which: those with the name
/// `Content-Length`, in whatever case and with whatever padding, and a number
/// after the colon. A line without a colon, or with another name, does not.
pub proof fn law_length_lines(
    name: Seq<char>,
    front: Seq<char>,
    code: Seq<char>,
    back: Seq<char>,
    n: nat,
    value: Seq<char>,
)
    requires
        !name.contains(':'),
        name.len() > 0 && !CharClass::Whitespace.has(name[0]) && !CharClass::Whitespace.has(
            name.last(),
        ),
        forall|i: int| 0 <= i < front.len() ==> CharClass::Whitespace.has(#[trigger] front[i]),
        forall|i: int| 0 <= i < back.len() ==> CharClass::Whitespace.has(#[trigger] back[i]),
        writes_number(code, n as int),
        n <= usize::MAX,
    ensures
        same_ignoring_case(name, "content-length"@) ==> line_content_length(
            name + seq![':'] + (front + code + back),
        ) == Some(n),
        !same_ignoring_case(name, "content-length"@) ==> line_content_length(
            name + seq![':'] + value,
        ) is None,
        line_content_length(name) is None,
{
    let class = CharClass::Whitespace;
    let colon = seq![':'];
    lemma_split_first(name, colon, front + code + back);
    lemma_split_first(name, colon, value);
    lemma_split_none(name, colon);
    lemma_trim_nothing(name, class);
    assert(!class.has(code[0]) && !class.has(code.last())) by {
        let digits = crate::text::unsigned(code);
        assert(digits.last() == code.last());
        assert('0' <= digits[digits.len() - 1] <= '9');
        assert('0' <= digits[0] <= '9');
    }
    lemma_trim_padding(front, code, back, class);
    crate::text::law_numbers_are_read_in_decimal(code, usize::MAX as nat);
}

/// A header section announces what the last line that announces a length
/// announces, whatever lines stand around it; without such a line it announces
/// the largest length there is.
pub proof fn law_last_length_counts(before: Seq<char>, line: Seq<char>, after: Seq<char>)
    requires
        !line.contains('\n'),
        forall|k: int|
            0 <= k < split(after, line_end()).len() ==> line_content_length(
                #[trigger] split(after, line_end())[k],
            ) is None,
    ensures
        line_content_length(line) matches Some(n) ==> announced_length(
            encode_utf8(before + line_end() + line),
        ) == n && announced_length(
            encode_utf8(before + line_end() + (line + line_end() + after)),
        ) == n,
        announced_length(encode_utf8(after)) == usize::MAX,
{
    let end = line_end();
    let short = before + end + line;
    let long = before + end + (line + end + after);
    vstd::utf8::encode_utf8_valid_utf8(short);
    vstd::utf8::encode_utf8_decode_utf8(short);
    vstd::utf8::encode_utf8_valid_utf8(long);
    vstd::utf8::encode_utf8_decode_utf8(long);
    vstd::utf8::encode_utf8_valid_utf8(after);
    vstd::utf8::encode_utf8_decode_utf8(after);
    lemma_one_line(line);
    lemma_split_at_line_end(before, line);
    lemma_split_at_line_end(before, line + end + after);
    lemma_split_at_line_end(line, after);
    let front = split(before, end) + seq![line];
    assert(split(short, end) =~= front);
    assert(split(long, end) =~= front + split(after, end));
    lemma_silent_lines(front, split(after, end));
    lemma_silent_lines(seq![], split(after, end));
    assert(Seq::<Seq<char>>::empty() + split(after, end) =~= split(after, end));
}

/// Lines that announce no length change nothing.
proof fn lemma_silent_lines(lines: Seq<Seq<char>>, more: Seq<Seq<char>>)
    requires
        forall|k: int| 0 <= k < more.len() ==> line_content_length(#[trigger] more[k]) is None,
    ensures
        last_content_length(lines + more) == last_content_length(lines),
    decreases more.len(),
{
    if more.len() == 0 {
        assert(lines + more =~= lines);
    } else {
        let less = more.drop_last();
        assert forall|k: int| 0 <= k < less.len() implies line_content_length(
            #[trigger] less[k],
        ) is None by {
            assert(less[k] == more[k]);
        }
        lemma_silent_lines(lines, less);
        assert((lines + more).drop_last() =~= lines + less);
        assert((lines + more).last() == more.last());
    }
}

/// A reply that is not UTF-8 cannot be read.
pub proof fn law_bytes_that_are_not_text_are_no_reply(bytes: Seq<u8>)
    requires
        !valid_utf8(bytes),
    ensures
        !splits_character(bytes),
        reply_of(bytes) == Err::<(u16, Seq<char>), Seq<char>>("non-utf8 response"@),
{
}

/// A reply says the status in its first line and, as its body, what follows the
/// blank line, as far as the announced length goes. It is complete as soon as
/// that much has arrived.
pub proof fn law_reply_is_taken_apart(
    version: Seq<char>,
    code: Seq<char>,
    status: u16,
    rest: Seq<char>,
    body: Seq<u8>,
)
    requires
        version.len() > 0,
        forall|i: int|
            0 <= i < version.len() ==> !CharClass::AsciiWhitespace.has(#[trigger] version[i]),
        writes_number(code, status as int),
        rest.len() > 0 ==> CharClass::AsciiWhitespace.has(rest[0]),
        !has_blank_line(rest + line_end() + seq!['\r']),
        valid_utf8(body),
    ensures
        ({
            let head = version + seq![' '] + code + rest;
            let n = announced_length(encode_utf8(head));
            let kept = if n < body.len() {
                n
            } else {
                body.len()
            };
            let bytes = encode_utf8(head + line_end() + line_end()) + body;
            &&& is_complete(bytes) == (body.len() >= n)
            &&& splits_character(bytes) == !is_char_boundary(
                bytes,
                bytes.len() - body.len() + kept,
            )
            &&& n >= body.len() ==> !splits_character(bytes)
            &&& reply_of(bytes) == Ok::<(u16, Seq<char>), Seq<char>>(
                (status, decode_utf8(body.take(kept as int))),
            )
        }),
{
    let end = line_end();
    let front = version + seq![' '] + code;
    let head = front + rest;
    let whole = head + end + end;
    let bytes = encode_utf8(whole) + body;
    let n = encode_utf8(head).len() as int;
    assert forall|i: int| 0 <= i < front.len() implies front[i] != '\r' by {
        if i < version.len() {
            assert(front[i] == version[i]);
        } else if i > version.len() {
            let digits = crate::text::unsigned(code);
            let k = i - version.len() - 1;
            assert(front[i] == code[k]);
            if digits == code {
                assert('0' <= digits[k] <= '9');
            } else if k > 0 {
                assert(digits[k - 1] == code[k]);
                assert('0' <= digits[k - 1] <= '9');
            }
        }
    }
    lemma_no_blank_line_after(front, rest + end + seq!['\r']);
    assert(front + (rest + end + seq!['\r']) =~= head + end + seq!['\r']);
    lemma_head_and_body(head, body);
    let announced = announced_length(encode_utf8(head)) as int;
    // the text of the whole
    vstd::utf8::encode_utf8_valid_utf8(whole);
    vstd::utf8::encode_utf8_decode_utf8(whole);
    vstd::utf8::valid_utf8_concat(encode_utf8(whole), body);
    lemma_boundary_after_ascii(bytes, n + 4);
    vstd::utf8::decode_utf8_split(bytes, n + 4);
    assert(bytes.subrange(0, n + 4) =~= encode_utf8(whole));
    assert(bytes.subrange(n + 4, bytes.len() as int) =~= body);
    let more = rest + end + end + decode_utf8(body);
    assert(decode_utf8(bytes) =~= front + more);
    assert(rest.len() > 0 ==> more[0] == rest[0]);
    assert(rest.len() == 0 ==> more[0] == '\r');
    crate::http::law_status_is_read(version, code, status, more);
    vstd::utf8::is_char_boundary_start_end_of_seq(bytes);
    if announced < body.len() {
        assert(bytes.subrange(n + 4, n + 4 + announced) =~= body.take(announced));
    } else {
        assert(body.take(body.len() as int) =~= body);
    }
}

} // verus!
