//! HTML pages.
use crate::text::to_chars;
use vstd::prelude::*;

verus! {

/// How a character is written inside HTML text or an attribute value.
pub open spec fn escape_char(c: char) -> Seq<char> {
    if c == '&' {
        "&amp;"@
    } else if c == '<' {
        "&lt;"@
    } else if c == '>' {
        "&gt;"@
    } else if c == '"' {
        "&quot;"@
    } else if c == '\'' {
        "&#39;"@
    } else {
        seq![c]
    }
}

/// The text with each of its characters written as `escape_char` says.
pub open spec fn escaped(s: Seq<char>) -> Seq<char>
    decreases s.len(),
{
    if s.len() == 0 {
        seq![]
    } else {
        escaped(s.drop_last()) + escape_char(s.last())
    }
}

/// What stands before the title of a page.
pub const PAGE_HEAD: &'static str = "<!doctype html>\
     <html lang=\"en\">\
     <head>\
     <meta charset=\"utf-8\">\
     <meta name=\"viewport\" content=\"width=device-width, initial-scale=1\">\
     <title>";

/// What stands between the title and the body of a page.
pub const PAGE_MIDDLE: &'static str = "</title>\
     <link rel=\"stylesheet\" href=\"/static/style.css\">\
     </head>\
     <body><main>";

/// What stands after the body of a page.
pub const PAGE_TAIL: &'static str = "</main></body>\
     </html>";

/// The page with the given title (as plain text) and body (as HTML).
pub open spec fn page_text(title: Seq<char>, body: Seq<char>) -> Seq<char> {
    PAGE_HEAD@ + escaped(title) + PAGE_MIDDLE@ + body + PAGE_TAIL@
}

/// Writes a text so that HTML shows it as it is.
pub fn html_escape(s: &str) -> (r: String)
    ensures
        r@ == escaped(s@),
{
    let chars = to_chars(s);
    let mut out = String::new();
    let mut i: usize = 0;
    while i < chars.len()
        invariant
            i <= chars@.len(),
            out@ == escaped(chars@.take(i as int)),
        decreases chars@.len() - i,
    {
        let c = chars[i];
        proof {
            let next = chars@.take(i + 1);
            assert(next.drop_last() == chars@.take(i as int));
            assert(next.last() == c);
        }
        if c == '&' {
            out.append("&amp;");
        } else if c == '<' {
            out.append("&lt;");
        } else if c == '>' {
            out.append("&gt;");
        } else if c == '"' {
            out.append("&quot;");
        } else if c == '\'' {
            out.append("&#39;");
        } else {
            out.push(c);
            assert(out@ =~= escaped(chars@.take(i as int)) + seq![c]);
        }
        i += 1;
    }
    assert(chars@.take(i as int) == s@);
    out
}

/// Builds a whole page. The title is escaped; the body is HTML already.
pub fn page(title: &str, body: &str) -> (r: String)
    ensures
        r@ == page_text(title@, body@),
{
    let mut out = PAGE_HEAD.to_owned();
    out.append(html_escape(title).as_str());
    out.append(PAGE_MIDDLE);
    out.append(body);
    out.append(PAGE_TAIL);
    out
}

// ---------------------------------------------------------------------------
// Laws
// ---------------------------------------------------------------------------
/// The text that HTML shows for escaped text.
pub open spec fn unescaped(t: Seq<char>) -> Seq<char>
    decreases t.len(),
{
    if t.len() == 0 {
        seq![]
    } else if t.len() >= 5 && t.take(5) == "&amp;"@ {
        seq!['&'] + unescaped(t.skip(5))
    } else if t.len() >= 4 && t.take(4) == "&lt;"@ {
        seq!['<'] + unescaped(t.skip(4))
    } else if t.len() >= 4 && t.take(4) == "&gt;"@ {
        seq!['>'] + unescaped(t.skip(4))
    } else if t.len() >= 6 && t.take(6) == "&quot;"@ {
        seq!['"'] + unescaped(t.skip(6))
    } else if t.len() >= 5 && t.take(5) == "&#39;"@ {
        seq!['\''] + unescaped(t.skip(5))
    } else {
        seq![t[0]] + unescaped(t.skip(1))
    }
}

/// Escaping works character by character, also from the front.
proof fn lemma_escaped_front(s: Seq<char>)
    requires
        s.len() > 0,
    ensures
        escaped(s) == escape_char(s[0]) + escaped(s.drop_first()),
    decreases s.len(),
{
    let rest = s.drop_first();
    if s.len() == 1 {
        assert(s.drop_last() =~= seq![]);
        assert(rest =~= seq![]);
        assert(escaped(seq![]) =~= Seq::<char>::empty());
        assert(escaped(s) =~= escape_char(s[0]) + escaped(rest));
    } else {
        lemma_escaped_front(s.drop_last());
        assert(s.drop_last().drop_first() =~= rest.drop_last());
        assert(escaped(s) =~= escape_char(s[0]) + (escaped(rest.drop_last()) + escape_char(
            rest.last(),
        )));
    }
}

/// One escaped character reads back as that character.
proof fn lemma_unescape_char(c: char, rest: Seq<char>)
    ensures
        unescaped(escape_char(c) + rest) == seq![c] + unescaped(rest),
{
    reveal_strlit("&amp;");
    reveal_strlit("&lt;");
    reveal_strlit("&gt;");
    reveal_strlit("&quot;");
    reveal_strlit("&#39;");
    let e = escape_char(c);
    let t = e + rest;
    assert(t.take(e.len() as int) =~= e);
    assert(t.skip(e.len() as int) =~= rest);
    assert(t[0] == e[0]);
    if e.len() > 1 {
        assert(t[1] == e[1]);
        assert(t.len() >= 5 ==> t.take(5)[1] == t[1]);
        assert(t.len() >= 4 ==> t.take(4)[1] == t[1]);
        assert(t.len() >= 6 ==> t.take(6)[1] == t[1]);
        assert("&amp;"@[1] == 'a');
        assert("&lt;"@[1] == 'l');
        assert("&gt;"@[1] == 'g');
        assert("&quot;"@[1] == 'q');
        assert("&#39;"@[1] == '#');
    } else {
        assert(t.len() >= 5 ==> t.take(5)[0] == t[0]);
        assert(t.len() >= 4 ==> t.take(4)[0] == t[0]);
        assert(t.len() >= 6 ==> t.take(6)[0] == t[0]);
        assert("&amp;"@[0] == '&');
        assert("&lt;"@[0] == '&');
        assert("&gt;"@[0] == '&');
        assert("&quot;"@[0] == '&');
        assert("&#39;"@[0] == '&');
    }
}

/// Escaped text shows as the text it was made of: nothing is lost or changed.
pub proof fn law_escaping_is_reversible(s: Seq<char>)
    ensures
        unescaped(escaped(s)) == s,
    decreases s.len(),
{
    if s.len() > 0 {
        lemma_escaped_front(s);
        lemma_unescape_char(s[0], escaped(s.drop_first()));
        law_escaping_is_reversible(s.drop_first());
        assert(seq![s[0]] + s.drop_first() =~= s);
    }
}

/// Escaped text holds no character that opens or closes a tag or ends an
/// attribute value, so it can neither add markup nor leave the place it is put.
pub proof fn law_escaped_text_is_inert(s: Seq<char>)
    ensures
        forall|i: int|
            0 <= i < escaped(s).len() ==> {
                let c = #[trigger] escaped(s)[i];
                c != '<' && c != '>' && c != '"' && c != '\''
            },
    decreases s.len(),
{
    if s.len() > 0 {
        law_escaped_text_is_inert(s.drop_last());
        reveal_strlit("&amp;");
        reveal_strlit("&lt;");
        reveal_strlit("&gt;");
        reveal_strlit("&quot;");
        reveal_strlit("&#39;");
        let front = escaped(s.drop_last());
        let e = escape_char(s.last());
        assert forall|i: int| 0 <= i < escaped(s).len() implies {
            let c = #[trigger] escaped(s)[i];
            c != '<' && c != '>' && c != '"' && c != '\''
        } by {
            if i < front.len() {
                assert(escaped(s)[i] == front[i]);
            } else {
                assert(escaped(s)[i] == e[i - front.len()]);
            }
        }
    }
}

/// A page holds the title, escaped, and after it the whole body as it is; the
/// rest of it is the same for all pages.
pub proof fn law_pages_keep_title_and_body(title: Seq<char>, body: Seq<char>)
    ensures
        ({
            let front = PAGE_HEAD@ + escaped(title) + PAGE_MIDDLE@;
            let back = body + PAGE_TAIL@;
            let text = page_text(title, body);
            &&& front.is_prefix_of(text)
            &&& back.is_suffix_of(text)
            &&& text.len() == front.len() + back.len()
        }),
{
    let front = PAGE_HEAD@ + escaped(title) + PAGE_MIDDLE@;
    let back = body + PAGE_TAIL@;
    let text = page_text(title, body);
    assert(text =~= front + back);
    assert(text.subrange(0, front.len() as int) =~= front);
    assert(text.subrange(text.len() - back.len(), text.len() as int) =~= back);
}

} // verus!
