use tickets_ui::html::{html_escape, page};

#[test]
fn special_characters_are_escaped() {
    assert_eq!(
        html_escape("<a href=\"x\">Tom & 'Jerry'</a>"),
        "&lt;a href=&quot;x&quot;&gt;Tom &amp; &#39;Jerry&#39;&lt;/a&gt;"
    );
}

#[test]
fn other_characters_stay() {
    assert_eq!(html_escape(""), "");
    assert_eq!(html_escape("plain \u{e9}\u{1f600}\n"), "plain \u{e9}\u{1f600}\n");
}

#[test]
fn escaping_is_reversible_and_inert() {
    let s = "&amp; <>\"' &lt; &#39; \u{2014}";
    let e = html_escape(s);
    for c in ['<', '>', '"', '\''] {
        assert!(!e.contains(c));
    }
    let back = e
        .replace("&lt;", "<")
        .replace("&gt;", ">")
        .replace("&quot;", "\"")
        .replace("&#39;", "'")
        .replace("&amp;", "&");
    assert_eq!(back, s);
}

#[test]
fn a_page_has_an_escaped_title_and_a_body() {
    assert_eq!(
        page("a<b", "<p>x</p>"),
        "<!doctype html><html lang=\"en\"><head><meta charset=\"utf-8\">\
         <meta name=\"viewport\" content=\"width=device-width, initial-scale=1\">\
         <title>a&lt;b</title><link rel=\"stylesheet\" href=\"/static/style.css\"></head>\
         <body><main><p>x</p></main></body></html>"
    );
}
