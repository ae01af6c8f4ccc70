use tickets_ui::json::{NewCommentBody, NewTicketBody, SetStatusBody};

#[test]
fn a_ticket_is_encoded() {
    let ticket = NewTicketBody { title: "t", body: "", reporter: "r", assignee: "a" };
    assert_eq!(
        ticket.encode(),
        Ok("{\"title\":\"t\",\"body\":\"\",\"reporter\":\"r\",\"assignee\":\"a\"}".to_string())
    );
}

#[test]
fn a_comment_is_encoded() {
    let comment = NewCommentBody { author: "me", body: "line\nline" };
    assert_eq!(
        comment.encode(),
        Ok("{\"author\":\"me\",\"body\":\"line\\nline\"}".to_string())
    );
}

#[test]
fn a_status_is_encoded() {
    assert_eq!(
        SetStatusBody { status: "in-progress" }.encode(),
        Ok("{\"status\":\"in-progress\"}".to_string())
    );
}

#[test]
fn characters_are_escaped_as_stated() {
    let mut text = String::new();
    let mut expected = String::new();
    for code in 0..=0x2fffu32 {
        if let Some(c) = char::from_u32(code) {
            text.push(c);
            match c {
                '"' => expected.push_str("\\\""),
                '\\' => expected.push_str("\\\\"),
                '\u{8}' => expected.push_str("\\b"),
                '\t' => expected.push_str("\\t"),
                '\n' => expected.push_str("\\n"),
                '\u{c}' => expected.push_str("\\f"),
                '\r' => expected.push_str("\\r"),
                c if code < 0x20 => expected.push_str(&format!("\\u{:04x}", c as u32)),
                c => expected.push(c),
            }
        }
    }
    assert_eq!(
        SetStatusBody { status: &text }.encode(),
        Ok(format!("{{\"status\":\"{}\"}}", expected))
    );
}

#[test]
fn what_is_encoded_can_be_parsed() {
    let title = "quote \" backslash \\ \u{1} \u{7f} \u{e9}\u{1f600}";
    let body = "\"},{\"";
    let json = NewTicketBody { title, body, reporter: "a\tb", assignee: "\r\n" }.encode().unwrap();
    let value = serde_json::from_str::<serde_json::Value>(&json).unwrap();
    assert_eq!(value["title"].as_str(), Some(title));
    assert_eq!(value["body"].as_str(), Some(body));
    assert_eq!(value["reporter"].as_str(), Some("a\tb"));
    assert_eq!(value["assignee"].as_str(), Some("\r\n"));
    assert_eq!(value.as_object().unwrap().len(), 4);
    assert!(json.chars().all(|c| c >= ' '));
}

#[test]
fn different_comments_are_encoded_differently() {
    let a = NewCommentBody { author: "x\",\"body\":\"y", body: "z" }.encode();
    let b = NewCommentBody { author: "x", body: "y\",\"body\":\"z" }.encode();
    assert_ne!(a, b);
}
