use tickets_ui::api::api_post;
use tickets_ui::http::{http_response, redirect_303};
use tickets_ui::routes::{
    finish_post, handle_add_comment, handle_create, handle_set_status, route, submit, Routed,
};
use tickets_ui::state::UiState;
use tickets_ui::views::{
    not_found, render_api_error, render_detail_view, render_error, render_list_view,
    render_new_view,
};

const CSS: &str = "body { color: red }";

fn state() -> UiState {
    UiState {
        listener_id: "l".to_string(),
        api_addr: "api:1".to_string(),
        api_token: "tok".to_string(),
    }
}

fn routed(request: &str) -> Routed<String, Vec<u8>> {
    route(&state(), CSS, request.as_bytes())
}

fn response(r: Routed<String, Vec<u8>>) -> Vec<u8> {
    match r {
        Routed::Respond(bytes) => bytes,
        Routed::Post { .. } => panic!("a call"),
    }
}

fn assert_call(r: Routed<String, Vec<u8>>, path: &str, json: &str, location: &str) {
    match r {
        Routed::Respond(_) => panic!("a response"),
        Routed::Post { address, request, location: to } => {
            assert_eq!(address, "api:1");
            let expected = api_post(&state(), path, json).request;
            assert_eq!(String::from_utf8(request), String::from_utf8(expected));
            assert_eq!(to, location);
        }
    }
}

fn get(path: &str) -> Vec<u8> {
    response(routed(&format!("GET {} HTTP/1.1\r\nHost: x\r\n\r\n", path)))
}

fn post(path: &str, body: &str) -> Routed<String, Vec<u8>> {
    routed(&format!("POST {} HTTP/1.1\r\nHost: x\r\n\r\n{}", path, body))
}

#[test]
fn fixed_pages() {
    assert_eq!(get("/healthz"), http_response(200, "text/plain", b"ok\n".to_vec()));
    assert_eq!(
        get("/static/style.css"),
        http_response(200, "text/css; charset=utf-8", CSS.as_bytes().to_vec())
    );
    assert_eq!(get("/"), render_list_view());
    assert_eq!(get("/new"), render_new_view());
}

#[test]
fn queries_are_ignored() {
    assert_eq!(get("/?status=open&assignee=me"), render_list_view());
    assert_eq!(get("/healthz?"), http_response(200, "text/plain", b"ok\n".to_vec()));
    assert_eq!(get("/t/5?x?y"), render_detail_view("5"));
}

#[test]
fn detail_pages() {
    assert_eq!(get("/t/7"), render_detail_view("7"));
    assert_eq!(get("/t/comments"), render_detail_view("comments"));
    assert_eq!(get("/t/<x>"), render_detail_view("<x>"));
    assert_eq!(get("/t/"), not_found());
    assert_eq!(get("/t/7/"), not_found());
    assert_eq!(get("/t/7/comments"), not_found());
}

#[test]
fn nothing_else_exists() {
    assert_eq!(get("/t"), not_found());
    assert_eq!(get("/News"), not_found());
    assert_eq!(get("/new/"), not_found());
    assert_eq!(get("*"), not_found());
    assert_eq!(response(routed("PUT /new HTTP/1.1\r\n\r\n")), not_found());
    assert_eq!(response(routed("get / HTTP/1.1\r\n\r\n")), not_found());
    assert_eq!(response(routed("HEAD / HTTP/1.1\r\n\r\n")), not_found());
    assert_eq!(response(routed("")), not_found());
    assert_eq!(response(routed("GET")), not_found());
    assert_eq!(response(routed("\r\nGET / HTTP/1.1")), not_found());
    assert_eq!(response(post("/", "a=b")), not_found());
    assert_eq!(response(post("/t/", "a=b")), not_found());
    assert_eq!(response(post("/t/7", "a=b")), not_found());
    assert_eq!(response(post("/t//comments", "a=b")), not_found());
    assert_eq!(response(post("/t/1/2/status", "a=b")), not_found());
    assert_eq!(response(post("/t/comments/status/x", "a=b")), not_found());
    assert_eq!(response(post("/comments", "a=b")), not_found());
}

#[test]
fn the_request_line_is_split_at_any_whitespace() {
    assert_eq!(response(routed("  GET\t/new\u{a0}HTTP/1.1")), render_new_view());
    assert_eq!(response(routed("GET /new")), render_new_view());
    assert_eq!(response(routed("GET /new\nGET / HTTP/1.1")), render_new_view());
}

#[test]
fn bytes_that_are_not_text() {
    let bytes = b"GET / HTTP/1.1\r\n\xff";
    assert_eq!(
        response(route(&state(), CSS, bytes)),
        http_response(400, "text/plain", b"bad request\n".to_vec())
    );
}

#[test]
fn paths_without_an_id() {
    for path in ["/t/comments", "/t/status", "/t/status?x", "/t/omments", "/t//status"] {
        assert_eq!(response(post(path, "author=a&body=b&status=open")), not_found());
    }
}

#[test]
fn a_ticket_is_created() {
    assert_call(
        post("/new", "title=Hello+%22world%22&body=x&reporter=me&assignee=you"),
        "/v1/tickets",
        "{\"title\":\"Hello \\\"world\\\"\",\"body\":\"x\",\"reporter\":\"me\",\"assignee\":\"you\"}",
        "/",
    );
    assert_call(
        post("/new?x", "assignee=you&title=t&reporter=me&title=second"),
        "/v1/tickets",
        "{\"title\":\"t\",\"body\":\"\",\"reporter\":\"me\",\"assignee\":\"you\"}",
        "/",
    );
}

#[test]
fn a_ticket_needs_its_fields() {
    let missing = render_error(
        400,
        "missing required fields",
        "title, reporter, and assignee are required.",
    );
    for body in [
        "",
        "title=&reporter=r&assignee=a",
        "title=t&assignee=a",
        "title=t&reporter=r&body=b",
    ] {
        assert_eq!(response(post("/new", body)), missing, "{}", body);
    }
    assert_eq!(
        response(handle_create(&state(), "POST /new HTTP/1.1\r\n")),
        render_error(400, "bad form body", "no request body")
    );
}

#[test]
fn a_comment_is_added() {
    assert_call(
        post("/t/12/comments", "author=me&body=fine%0Athanks"),
        "/v1/tickets/12/comment",
        "{\"author\":\"me\",\"body\":\"fine\\nthanks\"}",
        "/t/12",
    );
    assert_call(
        post("/t/+007/comments", "author=a&body=b"),
        "/v1/tickets/7/comment",
        "{\"author\":\"a\",\"body\":\"b\"}",
        "/t/7",
    );
    assert_call(
        post("/t/18446744073709551615/comments", "author=a&body=b"),
        "/v1/tickets/18446744073709551615/comment",
        "{\"author\":\"a\",\"body\":\"b\"}",
        "/t/18446744073709551615",
    );
}

#[test]
fn a_comment_needs_an_id_a_body_and_its_fields() {
    assert_eq!(
        response(post("/t/x<y/comments", "author=a&body=b")),
        render_error(400, "bad ticket id", "x<y")
    );
    assert_eq!(
        response(post("/t/18446744073709551616/comments", "author=a&body=b")),
        render_error(400, "bad ticket id", "18446744073709551616")
    );
    assert_eq!(
        response(handle_add_comment(&state(), "1", "no body")),
        render_error(400, "bad form body", "no request body")
    );
    assert_eq!(
        response(handle_add_comment(&state(), "x", "no body")),
        render_error(400, "bad ticket id", "x")
    );
    let missing = render_error(400, "missing required fields", "author and body are required.");
    assert_eq!(response(post("/t/1/comments", "author=a")), missing);
    assert_eq!(response(post("/t/1/comments", "author=&body=b")), missing);
}

#[test]
fn a_status_is_set() {
    for status in ["open", "in-progress", "done", "closed"] {
        assert_call(
            post("/t/3/status", &format!("status={}", status)),
            "/v1/tickets/3/status",
            &format!("{{\"status\":\"{}\"}}", status),
            "/t/3",
        );
    }
}

#[test]
fn a_status_must_be_one_that_exists() {
    let bad =
        render_error(400, "bad status", "valid values: open, in-progress, done, closed");
    for body in ["", "status=", "status=Open", "status=opened", "status=in+progress"] {
        assert_eq!(response(post("/t/3/status", body)), bad, "{}", body);
    }
    assert_eq!(
        response(post("/t/-3/status", "status=open")),
        render_error(400, "bad ticket id", "-3")
    );
    assert_eq!(
        response(handle_set_status(&state(), "3", "x")),
        render_error(400, "bad form body", "no request body")
    );
}

#[test]
fn a_body_that_cannot_be_encoded() {
    assert_eq!(
        response(submit(&state(), Err("why".to_string()), "/p", "/l")),
        render_error(500, "encode failed", "why")
    );
    assert_call(submit(&state(), Ok("{}".to_string()), "/p", "/l"), "/p", "{}", "/l");
}

#[test]
fn the_answer_after_a_call() {
    assert_eq!(finish_post(Ok((200, "x".to_string())), "/t/1"), redirect_303("/t/1"));
    assert_eq!(finish_post(Ok((299, "".to_string())), "/"), redirect_303("/"));
    for status in [0, 199, 300, 404, 500] {
        assert_eq!(
            finish_post(Ok((status, "no".to_string())), "/"),
            render_api_error(status, "no")
        );
    }
    assert_eq!(
        finish_post(Err("connect x: y".to_string()), "/"),
        render_error(502, "upstream unavailable", "connect x: y")
    );
}

#[test]
fn redirects_lead_to_pages() {
    assert_eq!(get("/t/12"), render_detail_view("12"));
    assert_eq!(get("/"), render_list_view());
}
