//! The JSON bodies that the tickets API takes.
use vstd::prelude::*;

verus! {

/// A lower-case hexadecimal digit.
pub open spec fn hex_char(n: u32) -> char {
    if n < 10 {
        ('0' as u32 + n) as char
    } else {
        ('a' as u32 + (n - 10)) as char
    }
}

/// How a character is written inside a JSON string: quote, backslash and
/// control characters are escaped, the short way where there is one.
pub open spec fn json_char(c: char) -> Seq<char> {
    if c == '"' {
        seq!['\\', '"']
    } else if c == '\\' {
        seq!['\\', '\\']
    } else if c == '\u{8}' {
        seq!['\\', 'b']
    } else if c == '\t' {
        seq!['\\', 't']
    } else if c == '\n' {
        seq!['\\', 'n']
    } else if c == '\u{c}' {
        seq!['\\', 'f']
    } else if c == '\r' {
        seq!['\\', 'r']
    } else if (c as u32) <= 0x1f {
        seq!['\\', 'u', '0', '0', hex_char(c as u32 / 16), hex_char(c as u32 % 16)]
    } else {
        seq![c]
    }
}

/// The characters of a text as they stand between the quotes of a JSON string.
pub open spec fn json_chars(s: Seq<char>) -> Seq<char>
    decreases s.len(),
{
    if s.len() == 0 {
        seq![]
    } else {
        json_char(s[0]) + json_chars(s.drop_first())
    }
}

/// A text as a JSON string.
pub open spec fn json_string(s: Seq<char>) -> Seq<char> {
    seq!['"'] + json_chars(s) + seq!['"']
}

/// `serde_json::to_string` on a text: it succeeds, since writing to memory does
/// not fail, and gives the text as a JSON string, in quotes, with the quote,
/// the backslash and the control characters escaped and all else as it is.
#[verifier::external_body]
fn to_json_string(s: &str) -> (r: Result<String, String>)
    ensures
        r is Ok,
        r matches Ok(json) ==> json@ == json_string(s@),
{
    serde_json::to_string(s).map_err(|e| e.to_string())
}

/// A ticket to be created.
pub struct NewTicketBody<'a> {
    pub title: &'a str,
    pub body: &'a str,
    pub reporter: &'a str,
    pub assignee: &'a str,
}

/// A comment to be added to a ticket.
pub struct NewCommentBody<'a> {
    pub author: &'a str,
    pub body: &'a str,
}

/// A status to be given to a ticket.
pub struct SetStatusBody<'a> {
    pub status: &'a str,
}

/// The JSON object for a new ticket.
pub open spec fn new_ticket_json(
    title: Seq<char>,
    body: Seq<char>,
    reporter: Seq<char>,
    assignee: Seq<char>,
) -> Seq<char> {
    "{\"title\":"@ + json_string(title) + ",\"body\":"@ + json_string(body) + ",\"reporter\":"@
        + json_string(reporter) + ",\"assignee\":"@ + json_string(assignee) + "}"@
}

/// The JSON object for a new comment.
pub open spec fn new_comment_json(author: Seq<char>, body: Seq<char>) -> Seq<char> {
    "{\"author\":"@ + json_string(author) + ",\"body\":"@ + json_string(body) + "}"@
}

/// The JSON object for a new status.
pub open spec fn set_status_json(status: Seq<char>) -> Seq<char> {
    "{\"status\":"@ + json_string(status) + "}"@
}

impl<'a> NewTicketBody<'a> {
    /// Encodes the ticket.
    pub fn encode(&self) -> (r: Result<String, String>)
        ensures
            r matches Ok(json) && json@ == new_ticket_json(
                self.title@,
                self.body@,
                self.reporter@,
                self.assignee@,
            ),
    {
        let title = to_json_string(self.title)?;
        let body = to_json_string(self.body)?;
        let reporter = to_json_string(self.reporter)?;
        let assignee = to_json_string(self.assignee)?;
        let mut out = "{\"title\":".to_owned();
        out.append(title.as_str());
        out.append(",\"body\":");
        out.append(body.as_str());
        out.append(",\"reporter\":");
        out.append(reporter.as_str());
        out.append(",\"assignee\":");
        out.append(assignee.as_str());
        out.append("}");
        Ok(out)
    }
}

impl<'a> NewCommentBody<'a> {
    /// Encodes the comment.
    pub fn encode(&self) -> (r: Result<String, String>)
        ensures
            r matches Ok(json) && json@ == new_comment_json(self.author@, self.body@),
    {
        let author = to_json_string(self.author)?;
        let body = to_json_string(self.body)?;
        let mut out = "{\"author\":".to_owned();
        out.append(author.as_str());
        out.append(",\"body\":");
        out.append(body.as_str());
        out.append("}");
        Ok(out)
    }
}

impl<'a> SetStatusBody<'a> {
    /// Encodes the status.
    pub fn encode(&self) -> (r: Result<String, String>)
        ensures
            r matches Ok(json) && json@ == set_status_json(self.status@),
    {
        let status = to_json_string(self.status)?;
        let mut out = "{\"status\":".to_owned();
        out.append(status.as_str());
        out.append("}");
        Ok(out)
    }
}

// ---------------------------------------------------------------------------
// Laws
// ---------------------------------------------------------------------------
/// Two texts that continue alike after their first written character begin
/// with the same character and go on alike.
proof fn lemma_json_char_prefix_free(a: char, x: Seq<char>, b: char, y: Seq<char>)
    requires
        json_char(a) + x == json_char(b) + y,
    ensures
        a == b,
        x == y,
{
    let s = json_char(a) + x;
    let t = json_char(b) + y;
    assert(s[0] == json_char(a)[0]);
    assert(t[0] == json_char(b)[0]);
    if json_char(a).len() > 1 {
        assert(s[1] == json_char(a)[1]);
    }
    if json_char(b).len() > 1 {
        assert(t[1] == json_char(b)[1]);
    }
    if json_char(a).len() == 6 && json_char(b).len() == 6 {
        assert(s[4] == json_char(a)[4]);
        assert(t[4] == json_char(b)[4]);
        assert(s[5] == json_char(a)[5]);
        assert(t[5] == json_char(b)[5]);
    }
    assert(a == b);
    assert(s.skip(json_char(a).len() as int) =~= x);
    assert(t.skip(json_char(b).len() as int) =~= y);
}

/// No character is written beginning with a quote.
proof fn lemma_json_char_no_quote(c: char)
    ensures
        json_char(c).len() > 0,
        json_char(c)[0] != '"',
{
}

/// The closing quote of a JSON string can be told from what stands before it.
proof fn lemma_json_string_ends(s: Seq<char>, x: Seq<char>, t: Seq<char>, y: Seq<char>)
    requires
        json_chars(s) + seq!['"'] + x == json_chars(t) + seq!['"'] + y,
    ensures
        s == t,
        x == y,
    decreases s.len(),
{
    let p = json_chars(s) + seq!['"'] + x;
    let q = json_chars(t) + seq!['"'] + y;
    if s.len() > 0 {
        lemma_json_char_no_quote(s[0]);
        assert(p[0] == json_char(s[0])[0]);
    } else {
        assert(p[0] == '"');
    }
    if t.len() > 0 {
        lemma_json_char_no_quote(t[0]);
        assert(q[0] == json_char(t[0])[0]);
    } else {
        assert(q[0] == '"');
    }
    if s.len() == 0 {
        assert(s =~= t);
        assert(p.skip(1) =~= x);
        assert(q.skip(1) =~= y);
    } else {
        let s_rest = json_chars(s.drop_first()) + seq!['"'] + x;
        let t_rest = json_chars(t.drop_first()) + seq!['"'] + y;
        assert(p =~= json_char(s[0]) + s_rest);
        assert(q =~= json_char(t[0]) + t_rest);
        lemma_json_char_prefix_free(s[0], s_rest, t[0], t_rest);
        lemma_json_string_ends(s.drop_first(), x, t.drop_first(), y);
        assert(s =~= seq![s[0]] + s.drop_first());
        assert(t =~= seq![t[0]] + t.drop_first());
    }
}

/// A member of an object can be told from what follows it.
proof fn lemma_member_ends(name: Seq<char>, s: Seq<char>, x: Seq<char>, t: Seq<char>, y: Seq<char>)
    requires
        name + json_string(s) + x == name + json_string(t) + y,
    ensures
        s == t,
        x == y,
{
    let p = name + json_string(s) + x;
    let q = name + json_string(t) + y;
    let n = name.len() as int + 1;
    assert(p.skip(n) =~= json_chars(s) + seq!['"'] + x);
    assert(q.skip(n) =~= json_chars(t) + seq!['"'] + y);
    lemma_json_string_ends(s, x, t, y);
}

/// The tickets API is told exactly what the form said: tickets that differ in
/// any field are encoded differently.
#[verifier::rlimit(40)]
pub proof fn law_ticket_encoding_is_faithful(
    title: Seq<char>,
    body: Seq<char>,
    reporter: Seq<char>,
    assignee: Seq<char>,
    title2: Seq<char>,
    body2: Seq<char>,
    reporter2: Seq<char>,
    assignee2: Seq<char>,
)
    requires
        new_ticket_json(title, body, reporter, assignee) == new_ticket_json(
            title2,
            body2,
            reporter2,
            assignee2,
        ),
    ensures
        title == title2,
        body == body2,
        reporter == reporter2,
        assignee == assignee2,
{
    let d = ",\"assignee\":"@ + json_string(assignee) + "}"@;
    let d2 = ",\"assignee\":"@ + json_string(assignee2) + "}"@;
    let c = ",\"reporter\":"@ + json_string(reporter) + d;
    let c2 = ",\"reporter\":"@ + json_string(reporter2) + d2;
    let b = ",\"body\":"@ + json_string(body) + c;
    let b2 = ",\"body\":"@ + json_string(body2) + c2;
    assert(new_ticket_json(title, body, reporter, assignee) =~= "{\"title\":"@ + json_string(title)
        + b);
    assert(new_ticket_json(title2, body2, reporter2, assignee2) =~= "{\"title\":"@ + json_string(
        title2,
    ) + b2);
    lemma_member_ends("{\"title\":"@, title, b, title2, b2);
    lemma_member_ends(",\"body\":"@, body, c, body2, c2);
    lemma_member_ends(",\"reporter\":"@, reporter, d, reporter2, d2);
    lemma_member_ends(",\"assignee\":"@, assignee, "}"@, assignee2, "}"@);
}

/// Comments that differ in author or body are encoded differently.
pub proof fn law_comment_encoding_is_faithful(
    author: Seq<char>,
    body: Seq<char>,
    author2: Seq<char>,
    body2: Seq<char>,
)
    requires
        new_comment_json(author, body) == new_comment_json(author2, body2),
    ensures
        author == author2,
        body == body2,
{
    let b = ",\"body\":"@ + json_string(body) + "}"@;
    let b2 = ",\"body\":"@ + json_string(body2) + "}"@;
    assert(new_comment_json(author, body) =~= "{\"author\":"@ + json_string(author) + b);
    assert(new_comment_json(author2, body2) =~= "{\"author\":"@ + json_string(author2) + b2);
    lemma_member_ends("{\"author\":"@, author, b, author2, b2);
    lemma_member_ends(",\"body\":"@, body, "}"@, body2, "}"@);
}

/// Different statuses are encoded differently.
pub proof fn law_status_encoding_is_faithful(status: Seq<char>, status2: Seq<char>)
    requires
        set_status_json(status) == set_status_json(status2),
    ensures
        status == status2,
{
    lemma_member_ends("{\"status\":"@, status, "}"@, status2, "}"@);
}

/// A JSON string holds no control character, so no line break either.
pub proof fn law_json_string_is_one_line(s: Seq<char>)
    ensures
        forall|i: int| 0 <= i < json_string(s).len() ==> #[trigger] json_string(s)[i] >= '\u{20}',
{
    lemma_json_chars_printable(s);
    let inner = json_chars(s);
    assert forall|i: int| 0 <= i < json_string(s).len() implies #[trigger] json_string(s)[i]
        >= '\u{20}' by {
        if 0 < i <= inner.len() {
            assert(json_string(s)[i] == inner[i - 1]);
        }
    }
}

proof fn lemma_json_char_printable(c: char)
    ensures
        forall|i: int| 0 <= i < json_char(c).len() ==> #[trigger] json_char(c)[i] >= '\u{20}',
{
    if (c as u32) <= 0x1f {
        assert(hex_char(c as u32 / 16) >= '\u{20}');
        assert(hex_char(c as u32 % 16) >= '\u{20}');
    }
}

proof fn lemma_json_chars_printable(s: Seq<char>)
    ensures
        forall|i: int| 0 <= i < json_chars(s).len() ==> #[trigger] json_chars(s)[i] >= '\u{20}',
    decreases s.len(),
{
    if s.len() > 0 {
        let head = json_char(s[0]);
        let tail = json_chars(s.drop_first());
        lemma_json_chars_printable(s.drop_first());
        lemma_json_char_printable(s[0]);
        assert forall|i: int| 0 <= i < json_chars(s).len() implies #[trigger] json_chars(s)[i]
            >= '\u{20}' by {
            if i < head.len() {
                assert(json_chars(s)[i] == head[i]);
            } else {
                assert(json_chars(s)[i] == tail[i - head.len()]);
            }
        }
    }
}

// A reader of JSON objects whose members are strings, as the grammar of JSON
// has them, but without white space between the tokens.
/// The value of a hexadecimal digit, in either case.
pub open spec fn hex_digit_value(c: char) -> Option<int> {
    if '0' <= c <= '9' {
        Some(c as int - '0' as int)
    } else if 'a' <= c <= 'f' {
        Some(c as int - 'a' as int + 10)
    } else if 'A' <= c <= 'F' {
        Some(c as int - 'A' as int + 10)
    } else {
        None
    }
}

/// The character that a backslash and the given character stand for.
pub open spec fn short_escape(c: char) -> Option<char> {
    if c == '"' || c == '\\' || c == '/' {
        Some(c)
    } else if c == 'b' {
        Some('\u{8}')
    } else if c == 'f' {
        Some('\u{c}')
    } else if c == 'n' {
        Some('\n')
    } else if c == 'r' {
        Some('\r')
    } else if c == 't' {
        Some('\t')
    } else {
        None
    }
}

/// The code that the four hexadecimal digits at the beginning write.
pub open spec fn read_code(s: Seq<char>) -> Option<int> {
    if s.len() < 4 {
        None
    } else {
        match (
            hex_digit_value(s[0]),
            hex_digit_value(s[1]),
            hex_digit_value(s[2]),
            hex_digit_value(s[3]),
        ) {
            (Some(a), Some(b), Some(c), Some(d)) => Some(((a * 16 + b) * 16 + c) * 16 + d),
            _ => None,
        }
    }
}

/// The first character inside a JSON string, and how much is taken up by it.
/// Codes of surrogates are not read.
pub open spec fn read_json_char(s: Seq<char>) -> Option<(char, int)> {
    if s.len() == 0 || s[0] == '"' || (s[0] as u32) <= 0x1f {
        None
    } else if s[0] != '\\' {
        Some((s[0], 1))
    } else if s.len() < 2 {
        None
    } else if s[1] == 'u' {
        match read_code(s.skip(2)) {
            Some(code) => if code < 0xd800 || 0xe000 <= code {
                Some((code as char, 6))
            } else {
                None
            },
            None => None,
        }
    } else {
        match short_escape(s[1]) {
            Some(c) => Some((c, 2)),
            None => None,
        }
    }
}

/// The text up to the closing quote of a JSON string, and what follows that.
pub open spec fn read_to_quote(s: Seq<char>) -> Option<(Seq<char>, Seq<char>)>
    decreases s.len(),
{
    if s.len() > 0 && s[0] == '"' {
        Some((seq![], s.drop_first()))
    } else {
        match read_json_char(s) {
            Some((c, n)) => match read_to_quote(s.skip(n)) {
                Some((text, rest)) => Some((seq![c] + text, rest)),
                None => None,
            },
            None => None,
        }
    }
}

/// A JSON string at the beginning, and what follows it.
pub open spec fn read_string(s: Seq<char>) -> Option<(Seq<char>, Seq<char>)> {
    if s.len() > 0 && s[0] == '"' {
        read_to_quote(s.drop_first())
    } else {
        None
    }
}

/// A member at the beginning, and what follows it.
pub open spec fn read_member(s: Seq<char>) -> Option<((Seq<char>, Seq<char>), Seq<char>)> {
    match read_string(s) {
        Some((name, rest)) => if rest.len() > 0 && rest[0] == ':' {
            match read_string(rest.drop_first()) {
                Some((value, rest)) => Some(((name, value), rest)),
                None => None,
            }
        } else {
            None
        },
        None => None,
    }
}

/// At most `count` members, up to the closing brace, with nothing after that.
pub open spec fn read_members(s: Seq<char>, count: nat) -> Option<Seq<(Seq<char>, Seq<char>)>>
    decreases count,
{
    if count == 0 {
        None
    } else {
        match read_member(s) {
            Some((member, rest)) => if rest == seq!['}'] {
                Some(seq![member])
            } else if rest.len() > 0 && rest[0] == ',' {
                match read_members(rest.drop_first(), (count - 1) as nat) {
                    Some(members) => Some(seq![member] + members),
                    None => None,
                }
            } else {
                None
            },
            None => None,
        }
    }
}

/// The members of a JSON object, in order, where all of them are strings.
pub open spec fn read_object(s: Seq<char>) -> Option<Seq<(Seq<char>, Seq<char>)>> {
    if s.len() > 0 && s[0] == '{' {
        read_members(s.drop_first(), s.len())
    } else {
        None
    }
}

/// A written character is read back.
proof fn lemma_read_json_char(c: char, rest: Seq<char>)
    ensures
        read_json_char(json_char(c) + rest) == Some((c, json_char(c).len() as int)),
{
    let e = json_char(c);
    let s = e + rest;
    assert(s[0] == e[0]);
    if e.len() > 1 {
        assert(s[1] == e[1]);
    }
    if e.len() == 6 {
        let n = c as u32;
        let code = s.skip(2);
        assert(code[0] == e[2] && code[1] == e[3] && code[2] == e[4] && code[3] == e[5]);
        assert(hex_digit_value(hex_char(n / 16)) == Some((n / 16) as int));
        assert(hex_digit_value(hex_char(n % 16)) == Some((n % 16) as int));
        assert(read_code(code) == Some(n as int));
        vstd::utf8::char_u32_cast(c, n);
        assert(n as int as char == c);
    }
}

/// A written text is read back up to its closing quote.
proof fn lemma_read_to_quote(s: Seq<char>, rest: Seq<char>)
    ensures
        read_to_quote(json_chars(s) + seq!['"'] + rest) == Some((s, rest)),
    decreases s.len(),
{
    let w = json_chars(s) + seq!['"'] + rest;
    if s.len() == 0 {
        assert(w[0] == '"');
        assert(w.drop_first() =~= rest);
        assert(s =~= seq![]);
    } else {
        let e = json_char(s[0]);
        let tail = json_chars(s.drop_first()) + seq!['"'] + rest;
        assert(w =~= e + tail);
        lemma_json_char_no_quote(s[0]);
        assert(w[0] == e[0]);
        lemma_read_json_char(s[0], tail);
        assert(w.skip(e.len() as int) =~= tail);
        lemma_read_to_quote(s.drop_first(), rest);
        assert(seq![s[0]] + s.drop_first() =~= s);
    }
}

/// Letters are written as they are.
proof fn lemma_letters_as_they_are(s: Seq<char>)
    requires
        forall|i: int| 0 <= i < s.len() ==> 'a' <= #[trigger] s[i] <= 'z',
    ensures
        json_chars(s) == s,
    decreases s.len(),
{
    if s.len() > 0 {
        let rest = s.drop_first();
        assert forall|i: int| 0 <= i < rest.len() implies 'a' <= #[trigger] rest[i] <= 'z' by {
            assert(rest[i] == s[i + 1]);
        }
        lemma_letters_as_they_are(rest);
        assert('a' <= s[0] <= 'z');
        assert(seq![s[0]] + rest =~= s);
    }
}

/// A member whose name is made of letters is read back.
proof fn lemma_read_member(name: Seq<char>, value: Seq<char>, rest: Seq<char>)
    requires
        forall|i: int| 0 <= i < name.len() ==> 'a' <= #[trigger] name[i] <= 'z',
    ensures
        read_member(seq!['"'] + name + seq!['"', ':'] + json_string(value) + rest) == Some(
            ((name, value), rest),
        ),
{
    let s = seq!['"'] + name + seq!['"', ':'] + json_string(value) + rest;
    let after = seq![':'] + json_string(value) + rest;
    lemma_letters_as_they_are(name);
    assert(s.drop_first() =~= json_chars(name) + seq!['"'] + after);
    lemma_read_to_quote(name, after);
    assert(after.drop_first().drop_first() =~= json_chars(value) + seq!['"'] + rest);
    lemma_read_to_quote(value, rest);
}

/// The tickets API reads out of the object for a new ticket the four texts that
/// were put into it, each under its name, and nothing else.
#[verifier::rlimit(40)]
pub proof fn law_ticket_is_read_back(
    title: Seq<char>,
    body: Seq<char>,
    reporter: Seq<char>,
    assignee: Seq<char>,
)
    ensures
        read_object(new_ticket_json(title, body, reporter, assignee)) == Some(
            seq![
                ("title"@, title),
                ("body"@, body),
                ("reporter"@, reporter),
                ("assignee"@, assignee),
            ],
        ),
{
    reveal_strlit("title");
    reveal_strlit("body");
    reveal_strlit("reporter");
    reveal_strlit("assignee");
    reveal_strlit("{\"title\":");
    reveal_strlit(",\"body\":");
    reveal_strlit(",\"reporter\":");
    reveal_strlit(",\"assignee\":");
    reveal_strlit("}");
    let json = new_ticket_json(title, body, reporter, assignee);
    let end = seq!['}'];
    let d = seq!['"'] + "assignee"@ + seq!['"', ':'] + json_string(assignee) + end;
    let c = seq!['"'] + "reporter"@ + seq!['"', ':'] + json_string(reporter) + (seq![','] + d);
    let b = seq!['"'] + "body"@ + seq!['"', ':'] + json_string(body) + (seq![','] + c);
    let a = seq!['"'] + "title"@ + seq!['"', ':'] + json_string(title) + (seq![','] + b);
    assert("{\"title\":"@ =~= seq!['{'] + (seq!['"'] + "title"@ + seq!['"', ':']));
    assert(",\"body\":"@ =~= seq![','] + (seq!['"'] + "body"@ + seq!['"', ':']));
    assert(",\"reporter\":"@ =~= seq![','] + (seq!['"'] + "reporter"@ + seq!['"', ':']));
    assert(",\"assignee\":"@ =~= seq![','] + (seq!['"'] + "assignee"@ + seq!['"', ':']));
    assert("}"@ =~= end);
    assert(json =~= seq!['{'] + a);
    assert(json.drop_first() =~= a);
    lemma_read_member("title"@, title, seq![','] + b);
    lemma_read_member("body"@, body, seq![','] + c);
    lemma_read_member("reporter"@, reporter, seq![','] + d);
    lemma_read_member("assignee"@, assignee, end);
    assert((seq![','] + b).drop_first() =~= b);
    assert((seq![','] + c).drop_first() =~= c);
    assert((seq![','] + d).drop_first() =~= d);
    let n = json.len();
    assert((seq![','] + b)[0] != end[0]);
    assert((seq![','] + c)[0] != end[0]);
    assert((seq![','] + d)[0] != end[0]);
    assert(read_members(d, (n - 3) as nat) == Some(seq![("assignee"@, assignee)]));
    assert(read_members(c, (n - 2) as nat) == Some(
        seq![("reporter"@, reporter)] + seq![("assignee"@, assignee)],
    ));
    assert(read_members(b, (n - 1) as nat) == Some(
        seq![("body"@, body)] + (seq![("reporter"@, reporter)] + seq![("assignee"@, assignee)]),
    ));
    assert(seq![("title"@, title)] + (seq![("body"@, body)] + (seq![("reporter"@, reporter)]
        + seq![("assignee"@, assignee)])) =~= seq![
        ("title"@, title),
        ("body"@, body),
        ("reporter"@, reporter),
        ("assignee"@, assignee),
    ]);
}

/// The tickets API reads out of the object for a new comment the two texts that
/// were put into it, each under its name, and nothing else.
pub proof fn law_comment_is_read_back(author: Seq<char>, body: Seq<char>)
    ensures
        read_object(new_comment_json(author, body)) == Some(
            seq![("author"@, author), ("body"@, body)],
        ),
{
    reveal_strlit("author");
    reveal_strlit("body");
    reveal_strlit("{\"author\":");
    reveal_strlit(",\"body\":");
    reveal_strlit("}");
    let json = new_comment_json(author, body);
    let end = seq!['}'];
    let b = seq!['"'] + "body"@ + seq!['"', ':'] + json_string(body) + end;
    let a = seq!['"'] + "author"@ + seq!['"', ':'] + json_string(author) + (seq![','] + b);
    assert("{\"author\":"@ =~= seq!['{'] + (seq!['"'] + "author"@ + seq!['"', ':']));
    assert(",\"body\":"@ =~= seq![','] + (seq!['"'] + "body"@ + seq!['"', ':']));
    assert("}"@ =~= end);
    assert(json =~= seq!['{'] + a);
    assert(json.drop_first() =~= a);
    lemma_read_member("author"@, author, seq![','] + b);
    lemma_read_member("body"@, body, end);
    assert((seq![','] + b).drop_first() =~= b);
    assert((seq![','] + b)[0] != end[0]);
    assert(read_members(b, (json.len() - 1) as nat) == Some(seq![("body"@, body)]));
    assert(seq![("author"@, author)] + seq![("body"@, body)] =~= seq![
        ("author"@, author),
        ("body"@, body),
    ]);
}

/// The tickets API reads the status that was put into the object for a new
/// status out of it, under its name, and nothing else.
pub proof fn law_status_is_read_back(status: Seq<char>)
    ensures
        read_object(set_status_json(status)) == Some(seq![("status"@, status)]),
{
    reveal_strlit("status");
    reveal_strlit("{\"status\":");
    reveal_strlit("}");
    let json = set_status_json(status);
    let end = seq!['}'];
    let a = seq!['"'] + "status"@ + seq!['"', ':'] + json_string(status) + end;
    assert("{\"status\":"@ =~= seq!['{'] + (seq!['"'] + "status"@ + seq!['"', ':']));
    assert("}"@ =~= end);
    assert(json =~= seq!['{'] + a);
    assert(json.drop_first() =~= a);
    lemma_read_member("status"@, status, end);
}

} // verus!
