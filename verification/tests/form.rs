use tickets_ui::form::{extract_form, form_get, hex_digit, url_decode};

fn pair(k: &str, v: &str) -> (String, String) {
    (k.to_string(), v.to_string())
}

#[test]
fn hexadecimal_digits() {
    for b in 0..=255u8 {
        assert_eq!(hex_digit(b), (b as char).to_digit(16).map(|d| d as u8));
    }
}

#[test]
fn decoding() {
    assert_eq!(url_decode("a+b%20c"), "a b c");
    assert_eq!(url_decode("%3Cscript%3e"), "<script>");
    assert_eq!(url_decode(""), "");
    assert_eq!(url_decode("100%"), "100%");
    assert_eq!(url_decode("%4"), "%4");
    assert_eq!(url_decode("%41"), "A");
    assert_eq!(url_decode("%zz%41"), "%zzA");
    assert_eq!(url_decode("%%41"), "%A");
    assert_eq!(url_decode("%2B"), "+");
    assert_eq!(url_decode("%00"), "\0");
}

#[test]
fn a_byte_becomes_a_character() {
    assert_eq!(url_decode("%C3%A9"), "\u{c3}\u{a9}");
    assert_eq!(url_decode("\u{e9}"), "\u{c3}\u{a9}");
    assert_eq!(url_decode("%FF"), "\u{ff}");
}

#[test]
fn a_posted_form_is_read() {
    let request = "POST /new HTTP/1.1\r\nHost: x\r\n\r\ntitle=hello+world&body=&reporter=a%26b";
    assert_eq!(
        extract_form(request),
        Ok(vec![pair("title", "hello world"), pair("body", ""), pair("reporter", "a&b")])
    );
}

#[test]
fn odd_forms() {
    assert_eq!(extract_form("POST / HTTP/1.1\r\n"), Err("no request body".to_string()));
    assert_eq!(extract_form("x\r\n\r\n"), Ok(vec![]));
    assert_eq!(extract_form("x\r\n\r\n\0\0"), Ok(vec![]));
    assert_eq!(extract_form("x\r\n\r\na=1\0\0"), Ok(vec![pair("a", "1")]));
    assert_eq!(extract_form("x\r\n\r\na=1\0b"), Ok(vec![pair("a", "1\0b")]));
    assert_eq!(extract_form("x\r\n\r\nname"), Ok(vec![pair("name", "")]));
    assert_eq!(extract_form("x\r\n\r\na=b=c"), Ok(vec![pair("a", "b=c")]));
    assert_eq!(
        extract_form("x\r\n\r\n&&=v"),
        Ok(vec![pair("", ""), pair("", ""), pair("", "v")])
    );
    assert_eq!(
        extract_form("\r\n\r\na=1\r\n\r\nb=2"),
        Ok(vec![pair("a", "1\r\n\r\nb=2")])
    );
}

#[test]
fn an_encoded_form_comes_back() {
    fn encode(s: &str) -> String {
        let mut out = String::new();
        for b in s.bytes() {
            if b.is_ascii_alphanumeric() || b"*-._".contains(&b) {
                out.push(b as char);
            } else if b == b' ' {
                out.push('+');
            } else {
                out.push_str(&format!("%{:02X}", b));
            }
        }
        out
    }
    let fields = [("title", "50% & more = <fun>?"), ("body", "line 1\r\nline 2\r\n\r\n"), ("", "")];
    let body: Vec<String> =
        fields.iter().map(|(k, v)| format!("{}={}", encode(k), encode(v))).collect();
    let request = format!("POST /new HTTP/1.1\r\nHost: x\r\n\r\n{}", body.join("&"));
    let expected: Vec<(String, String)> = fields.iter().map(|(k, v)| pair(k, v)).collect();
    assert_eq!(extract_form(&request), Ok(expected));
}

#[test]
fn the_first_field_counts() {
    let form = vec![pair("a", "1"), pair("b", "2"), pair("a", "3")];
    assert_eq!(form_get(&form, "a"), Some("1"));
    assert_eq!(form_get(&form, "b"), Some("2"));
    assert_eq!(form_get(&form, "c"), None);
    assert_eq!(form_get(&[], "a"), None);
}
