//! From a request to its answer, or to the call of the tickets API that the
//! answer waits for.
use crate::api::api_post;
use crate::api::request_bytes;
use crate::form::extract_form;
use crate::form::form_get;
use crate::form::form_view;
use crate::form::posted_fields;
use crate::form::value_or_empty;
use crate::html::escape_char;
use crate::html::escaped;
use crate::html::page_text;
use crate::http::html_response;
use crate::http::http_response;
use crate::http::redirect;
use crate::http::redirect_303;
use crate::http::response;
use crate::json::new_comment_json;
use crate::json::new_ticket_json;
use crate::json::set_status_json;
use crate::json::NewCommentBody;
use crate::json::NewTicketBody;
use crate::json::SetStatusBody;
use crate::reply::is_printable;
use crate::reply::outcome_view;
use crate::state::UiState;
use crate::text::all_digits;
use crate::text::contains_char;
use crate::text::decimal;
use crate::text::ends_with;
use crate::text::first_line;
use crate::text::first_line_chars;
use crate::text::from_chars;
use crate::text::is_digit;
use crate::text::lemma_decimal_round_trip;
use crate::text::nth_word;
use crate::text::parse_decimal;
use crate::text::read_decimal;
use crate::text::spells;
use crate::text::split_once;
use crate::text::split_once_chars;
use crate::text::starts_with;
use crate::text::str_from_utf8;
use crate::text::to_chars;
use crate::text::word;
use crate::text::write_decimal;
use crate::text::CharClass;
use crate::views::api_error_detail;
use crate::views::api_error_view;
use crate::views::comment_target;
use crate::views::detail_view;
use crate::views::error_body;
use crate::views::error_view;
use crate::views::list_view;
use crate::views::new_view;
use crate::views::not_found;
use crate::views::not_found_view;
use crate::views::render_api_error;
use crate::views::render_detail_view;
use crate::views::render_error;
use crate::views::render_list_view;
use crate::views::render_new_view;
use crate::views::status_target;
use vstd::prelude::*;
use vstd::slice::slice_subrange;
use vstd::utf8::decode_utf8;
use vstd::utf8::encode_utf8;
use vstd::utf8::valid_utf8;

verus! {

/// Where a request leads.
pub enum Routed<T, B> {
    /// To a response.
    Respond(B),
    /// To a call of the tickets API; once it has succeeded, the browser is sent
    /// on to the location.
    Post { address: T, request: B, location: T },
}

/// Where a request leads, in specifications.
pub type RoutedView = Routed<Seq<char>, Seq<u8>>;

impl View for Routed<String, Vec<u8>> {
    type V = RoutedView;

    open spec fn view(&self) -> RoutedView {
        match *self {
            Routed::Respond(response) => Routed::Respond(response@),
            Routed::Post { address, request, location } => Routed::Post {
                address: address@,
                request: request@,
                location: location@,
            },
        }
    }
}

// ---------------------------------------------------------------------------
// Posted forms
// ---------------------------------------------------------------------------
/// A call of the tickets API with the given path and JSON body.
pub open spec fn posting(
    state: UiState,
    path: Seq<char>,
    json: Seq<char>,
    location: Seq<char>,
) -> RoutedView {
    Routed::Post {
        address: state.api_addr@,
        request: request_bytes(state, path, json),
        location,
    }
}

/// A page that reports an error, as where a request leads.
pub open spec fn refused(status: u16, title: Seq<char>, detail: Seq<char>) -> RoutedView {
    Routed::Respond(error_view(status, title, detail))
}

/// Where an encoded body leads: to the call, or to an error page.
pub open spec fn submitted(
    state: UiState,
    encoded: Result<Seq<char>, Seq<char>>,
    path: Seq<char>,
    location: Seq<char>,
) -> RoutedView {
    match encoded {
        Ok(json) => posting(state, path, json, location),
        Err(e) => refused(500, "encode failed"@, e),
    }
}

/// Where the form for a new ticket leads.
pub open spec fn created(state: UiState, request: Seq<char>) -> RoutedView {
    match posted_fields(request) {
        None => refused(400, "bad form body"@, "no request body"@),
        Some(fields) => {
            let title = value_or_empty(fields, "title"@);
            let body = value_or_empty(fields, "body"@);
            let reporter = value_or_empty(fields, "reporter"@);
            let assignee = value_or_empty(fields, "assignee"@);
            if title.len() == 0 || reporter.len() == 0 || assignee.len() == 0 {
                refused(
                    400,
                    "missing required fields"@,
                    "title, reporter, and assignee are required."@,
                )
            } else {
                posting(
                    state,
                    "/v1/tickets"@,
                    new_ticket_json(title, body, reporter, assignee),
                    "/"@,
                )
            }
        },
    }
}

/// The page of a ticket.
pub open spec fn ticket_location(id: nat) -> Seq<char> {
    "/t/"@ + decimal(id)
}

/// Where the form for a comment on the ticket named `id` leads.
pub open spec fn commented(state: UiState, id: Seq<char>, request: Seq<char>) -> RoutedView {
    match (parse_decimal(id, u64::MAX as nat), posted_fields(request)) {
        (None, _) => refused(400, "bad ticket id"@, id),
        (_, None) => refused(400, "bad form body"@, "no request body"@),
        (Some(n), Some(fields)) => {
            let author = value_or_empty(fields, "author"@);
            let body = value_or_empty(fields, "body"@);
            if author.len() == 0 || body.len() == 0 {
                refused(400, "missing required fields"@, "author and body are required."@)
            } else {
                posting(
                    state,
                    "/v1/tickets/"@ + decimal(n) + "/comment"@,
                    new_comment_json(author, body),
                    ticket_location(n),
                )
            }
        },
    }
}

/// The statuses that a ticket can have.
pub open spec fn is_status(s: Seq<char>) -> bool {
    s == "open"@ || s == "in-progress"@ || s == "done"@ || s == "closed"@
}

/// Where the form for the status of the ticket named `id` leads.
pub open spec fn status_changed(state: UiState, id: Seq<char>, request: Seq<char>) -> RoutedView {
    match (parse_decimal(id, u64::MAX as nat), posted_fields(request)) {
        (None, _) => refused(400, "bad ticket id"@, id),
        (_, None) => refused(400, "bad form body"@, "no request body"@),
        (Some(n), Some(fields)) => {
            let status = value_or_empty(fields, "status"@);
            if !is_status(status) {
                refused(400, "bad status"@, "valid values: open, in-progress, done, closed"@)
            } else {
                posting(
                    state,
                    "/v1/tickets/"@ + decimal(n) + "/status"@,
                    set_status_json(status),
                    ticket_location(n),
                )
            }
        },
    }
}

/// The response to a posted form once the call of the tickets API is over.
pub open spec fn post_response(
    outcome: Result<(u16, Seq<char>), Seq<char>>,
    location: Seq<char>,
) -> Seq<u8> {
    match outcome {
        Ok((status, body)) => if 200 <= status < 300 {
            redirect(location)
        } else {
            api_error_view(status, body)
        },
        Err(e) => error_view(502, "upstream unavailable"@, e),
    }
}

fn field<'a>(form: &'a Vec<(String, String)>, name: &str) -> (r: &'a str)
    ensures
        r@ == value_or_empty(form_view(form@), name@),
{
    match form_get(form.as_slice(), name) {
        Some(v) => v,
        None => {
            proof {
                reveal_strlit("");
            }
            assert(""@ =~= seq![]);
            ""
        },
    }
}

fn refuse(status: u16, title: &str, detail: &str) -> (r: Routed<String, Vec<u8>>)
    ensures
        r@ == refused(status, title@, detail@),
{
    Routed::Respond(render_error(status, title, detail))
}

/// Turns an encoded body into a call of the tickets API.
pub fn submit(state: &UiState, encoded: Result<String, String>, path: &str, location: &str) -> (r:
    Routed<String, Vec<u8>>)
    ensures
        r@ == submitted(
            *state,
            match encoded {
                Ok(json) => Ok(json@),
                Err(e) => Err(e@),
            },
            path@,
            location@,
        ),
{
    match encoded {
        Ok(json) => {
            let post = api_post(state, path, json.as_str());
            Routed::Post {
                address: post.address,
                request: post.request,
                location: location.to_owned(),
            }
        },
        Err(e) => refuse(500, "encode failed", e.as_str()),
    }
}

/// Handles the form for a new ticket.
pub fn handle_create(state: &UiState, request_str: &str) -> (r: Routed<String, Vec<u8>>)
    ensures
        r@ == created(*state, request_str@),
{
    let form = match extract_form(request_str) {
        Ok(form) => form,
        Err(message) => {
            return refuse(400, "bad form body", message.as_str());
        },
    };
    let title = field(&form, "title");
    let body = field(&form, "body");
    let reporter = field(&form, "reporter");
    let assignee = field(&form, "assignee");
    if title.is_empty() || reporter.is_empty() || assignee.is_empty() {
        return refuse(
            400,
            "missing required fields",
            "title, reporter, and assignee are required.",
        );
    }
    let json = NewTicketBody { title, body, reporter, assignee }.encode();
    submit(state, json, "/v1/tickets", "/")
}

fn read_id(id_str: &str) -> (r: Option<u64>)
    ensures
        match r {
            Some(n) => parse_decimal(id_str@, u64::MAX as nat) == Some(n as nat),
            None => parse_decimal(id_str@, u64::MAX as nat) is None,
        },
{
    read_decimal(to_chars(id_str).as_slice(), u64::MAX)
}

fn location_of(id: u64) -> (r: String)
    ensures
        r@ == ticket_location(id as nat),
{
    let mut location = "/t/".to_owned();
    location.append(write_decimal(id).as_str());
    location
}

/// Handles the form for a comment.
pub fn handle_add_comment(state: &UiState, id_str: &str, request_str: &str) -> (r: Routed<
    String,
    Vec<u8>,
>)
    ensures
        r@ == commented(*state, id_str@, request_str@),
{
    let id = match read_id(id_str) {
        Some(id) => id,
        None => {
            return refuse(400, "bad ticket id", id_str);
        },
    };
    let form = match extract_form(request_str) {
        Ok(form) => form,
        Err(message) => {
            return refuse(400, "bad form body", message.as_str());
        },
    };
    let author = field(&form, "author");
    let body = field(&form, "body");
    if author.is_empty() || body.is_empty() {
        return refuse(400, "missing required fields", "author and body are required.");
    }
    let json = NewCommentBody { author, body }.encode();
    let mut path = "/v1/tickets/".to_owned();
    path.append(write_decimal(id).as_str());
    path.append("/comment");
    submit(state, json, path.as_str(), location_of(id).as_str())
}

fn valid_status(status: &str) -> (r: bool)
    ensures
        r == is_status(status@),
{
    let chars = to_chars(status);
    spells(chars.as_slice(), "open") || spells(chars.as_slice(), "in-progress") || spells(
        chars.as_slice(),
        "done",
    ) || spells(chars.as_slice(), "closed")
}

/// Handles the form for a status.
pub fn handle_set_status(state: &UiState, id_str: &str, request_str: &str) -> (r: Routed<
    String,
    Vec<u8>,
>)
    ensures
        r@ == status_changed(*state, id_str@, request_str@),
{
    let id = match read_id(id_str) {
        Some(id) => id,
        None => {
            return refuse(400, "bad ticket id", id_str);
        },
    };
    let form = match extract_form(request_str) {
        Ok(form) => form,
        Err(message) => {
            return refuse(400, "bad form body", message.as_str());
        },
    };
    let status = field(&form, "status");
    if !valid_status(status) {
        return refuse(400, "bad status", "valid values: open, in-progress, done, closed");
    }
    let json = SetStatusBody { status }.encode();
    let mut path = "/v1/tickets/".to_owned();
    path.append(write_decimal(id).as_str());
    path.append("/status");
    submit(state, json, path.as_str(), location_of(id).as_str())
}

/// Answers a posted form once the call of the tickets API is over.
pub fn finish_post(outcome: Result<(u16, String), String>, location: &str) -> (r: Vec<u8>)
    ensures
        r@ == post_response(outcome_view(outcome), location@),
{
    match outcome {
        Ok((status, body)) => {
            if 200 <= status && status < 300 {
                redirect_303(location)
            } else {
                render_api_error(status, body.as_str())
            }
        },
        Err(e) => render_error(502, "upstream unavailable", e.as_str()),
    }
}

// ---------------------------------------------------------------------------
// Requests
// ---------------------------------------------------------------------------
/// The method of a request: the first word of its first line.
pub open spec fn method_of(request: Seq<char>) -> Seq<char> {
    word(first_line(request), CharClass::Whitespace, 0)
}

/// The path in a request line: its second word, up to a question mark.
pub open spec fn path_in(line: Seq<char>) -> Seq<char> {
    let target = word(line, CharClass::Whitespace, 1);
    match split_once(target, seq!['?']) {
        Some((path, _)) => path,
        None => target,
    }
}

/// The path of a request: that in its first line.
pub open spec fn path_of(request: Seq<char>) -> Seq<char> {
    path_in(first_line(request))
}

/// Whether the text can be a ticket id in a path: one segment, not empty.
pub open spec fn is_segment(s: Seq<char>) -> bool {
    s.len() > 0 && !s.contains('/')
}

/// What stands in a path between the ticket prefix and the suffix.
pub open spec fn ticket_in(path: Seq<char>, suffix: Seq<char>) -> Seq<char> {
    path.subrange(3, path.len() - suffix.len())
}

/// Whether the path is the ticket prefix, an id and the suffix.
pub open spec fn names_ticket(path: Seq<char>, suffix: Seq<char>) -> bool {
    &&& path.len() >= 3 + suffix.len()
    &&& "/t/"@.is_prefix_of(path)
    &&& suffix.is_suffix_of(path)
    &&& is_segment(ticket_in(path, suffix))
}

/// Where a GET request leads.
pub open spec fn got(stylesheet: Seq<char>, path: Seq<char>) -> Seq<u8> {
    if path == "/healthz"@ {
        response(200, "text/plain"@, encode_utf8("ok\n"@))
    } else if path == "/static/style.css"@ {
        response(200, "text/css; charset=utf-8"@, encode_utf8(stylesheet))
    } else if path == "/"@ {
        list_view()
    } else if path == "/new"@ {
        new_view()
    } else if "/t/"@.is_prefix_of(path) && is_segment(path.skip(3)) {
        detail_view(path.skip(3))
    } else {
        not_found_view()
    }
}

/// Where a POST request leads.
pub open spec fn posted(state: UiState, path: Seq<char>, request: Seq<char>) -> RoutedView {
    if path == "/new"@ {
        created(state, request)
    } else if names_ticket(path, "/comments"@) {
        commented(state, ticket_in(path, "/comments"@), request)
    } else if names_ticket(path, "/status"@) {
        status_changed(state, ticket_in(path, "/status"@), request)
    } else {
        Routed::Respond(not_found_view())
    }
}

/// Where a request leads.
pub open spec fn routed(state: UiState, stylesheet: Seq<char>, request: Seq<u8>) -> RoutedView {
    if valid_utf8(request) {
        let text = decode_utf8(request);
        if method_of(text) == "GET"@ {
            Routed::Respond(got(stylesheet, path_of(text)))
        } else if method_of(text) == "POST"@ {
            posted(state, path_of(text), text)
        } else {
            Routed::Respond(not_found_view())
        }
    } else {
        Routed::Respond(response(400, "text/plain"@, encode_utf8("bad request\n"@)))
    }
}

fn read_path<'a>(line: &'a [char]) -> (r: &'a [char])
    ensures
        r@ == path_in(line@),
{
    let target = nth_word(line, CharClass::Whitespace, 1);
    let mark: [char; 1] = ['?'];
    assert(mark@ =~= seq!['?']);
    match split_once_chars(target, &mark) {
        Some((path, _)) => path,
        None => target,
    }
}

fn segment_ok(s: &[char]) -> (r: bool)
    ensures
        r == is_segment(s@),
{
    s.len() > 0 && !contains_char(s, '/')
}

fn route_get(stylesheet: &str, path: &[char]) -> (r: Vec<u8>)
    ensures
        r@ == got(stylesheet@, path@),
{
    if spells(path, "/healthz") {
        return http_response(200, "text/plain", "ok\n".as_bytes_vec());
    }
    if spells(path, "/static/style.css") {
        return http_response(200, "text/css; charset=utf-8", stylesheet.as_bytes_vec());
    }
    if spells(path, "/") {
        return render_list_view();
    }
    if spells(path, "/new") {
        return render_new_view();
    }
    if starts_with(path, "/t/") {
        proof {
            reveal_strlit("/t/");
        }
        let rest = slice_subrange(path, 3, path.len());
        assert(rest@ == path@.skip(3));
        if segment_ok(rest) {
            return render_detail_view(from_chars(rest).as_str());
        }
    }
    not_found()
}

fn read_ticket<'a>(path: &'a [char], suffix: &str) -> (r: Option<&'a [char]>)
    ensures
        match r {
            Some(id) => names_ticket(path@, suffix@) && id@ == ticket_in(path@, suffix@),
            None => !names_ticket(path@, suffix@),
        },
{
    if !starts_with(path, "/t/") || !ends_with(path, suffix) {
        return None;
    }
    proof {
        reveal_strlit("/t/");
    }
    let length = to_chars(suffix).len();
    if path.len() - 3 < length {
        return None;
    }
    let id = slice_subrange(path, 3, path.len() - length);
    if segment_ok(id) {
        Some(id)
    } else {
        None
    }
}

fn route_post(state: &UiState, path: &[char], request_str: &str) -> (r: Routed<String, Vec<u8>>)
    ensures
        r@ == posted(*state, path@, request_str@),
{
    if spells(path, "/new") {
        return handle_create(state, request_str);
    }
    if let Some(id) = read_ticket(path, "/comments") {
        return handle_add_comment(state, from_chars(id).as_str(), request_str);
    }
    if let Some(id) = read_ticket(path, "/status") {
        return handle_set_status(state, from_chars(id).as_str(), request_str);
    }
    Routed::Respond(not_found())
}

/// Routes a request.
pub fn route(state: &UiState, stylesheet: &str, request: &[u8]) -> (r: Routed<String, Vec<u8>>)
    ensures
        r@ == routed(*state, stylesheet@, request@),
{
    let text = match str_from_utf8(request) {
        Some(text) => text,
        None => {
            return Routed::Respond(
                http_response(400, "text/plain", "bad request\n".as_bytes_vec()),
            );
        },
    };
    proof {
        vstd::utf8::encode_utf8_decode_utf8(text@);
    }
    let chars = to_chars(text);
    let line = first_line_chars(chars.as_slice());
    let method = nth_word(line, CharClass::Whitespace, 0);
    let path = read_path(line);
    if spells(method, "GET") {
        return Routed::Respond(route_get(stylesheet, path));
    }
    if spells(method, "POST") {
        return route_post(state, path, text);
    }
    Routed::Respond(not_found())
}

// ---------------------------------------------------------------------------
// Laws
// ---------------------------------------------------------------------------
/// The call creates a ticket: title, reporter and assignee are given, and the
/// browser goes back to the list.
pub open spec fn creates(
    state: UiState,
    call: RoutedView,
    title: Seq<char>,
    body: Seq<char>,
    reporter: Seq<char>,
    assignee: Seq<char>,
) -> bool {
    &&& title.len() > 0 && reporter.len() > 0 && assignee.len() > 0
    &&& call == posting(
        state,
        "/v1/tickets"@,
        new_ticket_json(title, body, reporter, assignee),
        "/"@,
    )
}

/// The call adds a comment to ticket `n`: author and body are given, and the
/// browser goes back to the ticket.
pub open spec fn comments(
    state: UiState,
    call: RoutedView,
    n: nat,
    author: Seq<char>,
    body: Seq<char>,
) -> bool {
    &&& n <= u64::MAX && author.len() > 0 && body.len() > 0
    &&& call == posting(
        state,
        "/v1/tickets/"@ + decimal(n) + "/comment"@,
        new_comment_json(author, body),
        ticket_location(n),
    )
}

/// The call gives ticket `n` one of the statuses that there are, and the
/// browser goes back to the ticket.
pub open spec fn sets_status(state: UiState, call: RoutedView, n: nat, status: Seq<char>) -> bool {
    &&& n <= u64::MAX && is_status(status)
    &&& call == posting(
        state,
        "/v1/tickets/"@ + decimal(n) + "/status"@,
        set_status_json(status),
        ticket_location(n),
    )
}

/// Every call of the tickets API creates a ticket, adds a comment or sets a
/// status; there is no other, and only a POST request leads to one.
pub proof fn law_calls_are_the_three_writes(state: UiState, stylesheet: Seq<char>, request: Seq<u8>)
    requires
        routed(state, stylesheet, request) is Post,
    ensures
        valid_utf8(request),
        method_of(decode_utf8(request)) == "POST"@,
        ({
            let call = routed(state, stylesheet, request);
            ||| exists|t: Seq<char>, b: Seq<char>, r: Seq<char>, a: Seq<char>|
                creates(state, call, t, b, r, a)
            ||| exists|n: nat, a: Seq<char>, b: Seq<char>| comments(state, call, n, a, b)
            ||| exists|n: nat, s: Seq<char>| sets_status(state, call, n, s)
        }),
{
    let call = routed(state, stylesheet, request);
    let text = decode_utf8(request);
    let path = path_of(text);
    let fields = posted_fields(text)->0;
    if path == "/new"@ {
        assert(creates(
            state,
            call,
            value_or_empty(fields, "title"@),
            value_or_empty(fields, "body"@),
            value_or_empty(fields, "reporter"@),
            value_or_empty(fields, "assignee"@),
        ));
    } else if names_ticket(path, "/comments"@) {
        assert(comments(
            state,
            call,
            parse_decimal(ticket_in(path, "/comments"@), u64::MAX as nat)->0,
            value_or_empty(fields, "author"@),
            value_or_empty(fields, "body"@),
        ));
    } else {
        assert(sets_status(
            state,
            call,
            parse_decimal(ticket_in(path, "/status"@), u64::MAX as nat)->0,
            value_or_empty(fields, "status"@),
        ));
    }
}

/// Digits are shown in HTML as they are.
proof fn lemma_digits_need_no_escape(d: Seq<char>)
    requires
        all_digits(d),
    ensures
        escaped(d) == d,
    decreases d.len(),
{
    if d.len() > 0 {
        assert(is_digit(d.last()));
        lemma_digits_need_no_escape(d.drop_last());
        assert(escape_char(d.last()) =~= seq![d.last()]);
        assert(escaped(d) =~= d);
    }
}

/// A ticket number can stand in a path.
proof fn lemma_number_is_segment(n: nat)
    ensures
        is_segment(decimal(n)),
        all_digits(decimal(n)),
{
    let d = decimal(n);
    lemma_decimal_round_trip(n, n);
    assert forall|i: int| 0 <= i < d.len() implies d[i] != '/' by {
        assert(is_digit(d[i]));
    }
}

/// The path under a ticket id, and what its parts are.
proof fn lemma_ticket_path(id: Seq<char>, suffix: Seq<char>)
    ensures
        "/t/"@.is_prefix_of("/t/"@ + id + suffix),
        suffix.is_suffix_of("/t/"@ + id + suffix),
        ("/t/"@ + id + suffix).len() == 3 + id.len() + suffix.len(),
        ("/t/"@ + id + suffix).subrange(3, 3 + id.len() as int) == id,
{
    reveal_strlit("/t/");
    let path = "/t/"@ + id + suffix;
    let n = path.len() as int;
    assert(path.subrange(0, 3) =~= "/t/"@);
    assert(path.subrange(n - suffix.len(), n) =~= suffix);
    assert(path.subrange(3, 3 + id.len() as int) =~= id);
}

/// A form posted to the comment path of an id is handled as a comment on the
/// ticket with that id, and one posted to its status path as a new status.
pub proof fn law_form_paths(state: UiState, id: Seq<char>, request: Seq<char>)
    requires
        is_segment(id),
    ensures
        posted(state, comment_target(id), request) == commented(state, id, request),
        posted(state, status_target(id), request) == status_changed(state, id, request),
{
    reveal_strlit("/t/");
    reveal_strlit("/new");
    reveal_strlit("/comments");
    reveal_strlit("/status");
    let c = comment_target(id);
    let s = status_target(id);
    lemma_ticket_path(id, "/comments"@);
    lemma_ticket_path(id, "/status"@);
    assert(c[1] == 't');
    assert(s[1] == 't');
    assert("/new"@[1] == 'n');
    if "/comments"@.is_suffix_of(s) {
        let n = s.len() as int;
        assert(s.subrange(n - 9, n)[8] == s[n - 1]);
        assert(s[n - 1] == "/status"@[6]);
        assert(s.subrange(n - 9, n)[6] == s[n - 3]);
        assert(s[n - 3] == "/status"@[4]);
        assert("/comments"@[6] == 'n');
        assert("/status"@[4] == 't');
    }
}

/// The page of a ticket names, in its two forms, the paths at which those forms
/// are handled for that very ticket.
pub proof fn law_detail_page_forms_reach_the_ticket(state: UiState, n: nat, request: Seq<char>)
    requires
        n <= u64::MAX,
    ensures
        escaped(decimal(n)) == decimal(n),
        posted(state, comment_target(decimal(n)), request) == commented(
            state,
            decimal(n),
            request,
        ),
        posted(state, status_target(decimal(n)), request) == status_changed(
            state,
            decimal(n),
            request,
        ),
        parse_decimal(decimal(n), u64::MAX as nat) == Some(n),
{
    lemma_decimal_round_trip(n, u64::MAX as nat);
    lemma_number_is_segment(n);
    lemma_digits_need_no_escape(decimal(n));
    law_form_paths(state, decimal(n), request);
}

/// The location to which a successful call sends the browser is a page: the
/// list after a new ticket, else the page of the ticket that was written to. It
/// fits on one line of a header section.
#[verifier::rlimit(40)]
pub proof fn law_redirects_lead_to_pages(state: UiState, stylesheet: Seq<char>, request: Seq<u8>)
    ensures
        routed(state, stylesheet, request) matches Routed::Post { location, .. } ==> {
            &&& is_printable(location)
            &&& ({
                ||| location == "/"@ && got(stylesheet, location) == list_view()
                ||| exists|n: nat| #[trigger]
                    ticket_location(n) == location && got(stylesheet, location) == detail_view(
                        decimal(n),
                    )
            })
        },
{
    if let Routed::Post { location, .. } = routed(state, stylesheet, request) {
        law_calls_are_the_three_writes(state, stylesheet, request);
        let call = routed(state, stylesheet, request);
        reveal_strlit("/");
        reveal_strlit("/new");
        reveal_strlit("/healthz");
        reveal_strlit("/static/style.css");
        reveal_strlit("/t/");
        if location == "/"@ {
            assert("/"@.len() == 1);
            assert("/healthz"@.len() == 8);
            assert("/static/style.css"@.len() == 17);
        } else {
            let n = if exists|n: nat, a: Seq<char>, b: Seq<char>|
                comments(state, call, n, a, b) {
                let (n, _, _) = choose|n: nat, a: Seq<char>, b: Seq<char>|
                    comments(state, call, n, a, b);
                n
            } else {
                let (n, _) = choose|n: nat, s: Seq<char>| sets_status(state, call, n, s);
                n
            };
            assert(location == ticket_location(n));
            let d = decimal(n);
            lemma_number_is_segment(n);
            lemma_ticket_path(d, seq![]);
            assert("/t/"@ + d + Seq::<char>::empty() =~= location);
            assert(location.skip(3) =~= d);
            assert(location[1] == 't');
            assert forall|i: int| 0 <= i < location.len() implies ' ' <= #[trigger] location[i]
                <= '~' by {
                if i >= 3 {
                    assert(location[i] == d[i - 3]);
                    assert(is_digit(d[i - 3]));
                }
            }
        }
    }
}

/// The addresses that exist for GET requests.
pub open spec fn is_page(path: Seq<char>) -> bool {
    ||| path == "/healthz"@
    ||| path == "/static/style.css"@
    ||| path == "/"@
    ||| path == "/new"@
    ||| exists|id: Seq<char>|
        id.len() > 0 && !id.contains('/') && path == #[trigger] ("/t/"@ + id)
}

/// The addresses that exist for POST requests.
pub open spec fn is_form_target(path: Seq<char>) -> bool {
    ||| path == "/new"@
    ||| exists|id: Seq<char>|
        id.len() > 0 && !id.contains('/') && path == #[trigger] ("/t/"@ + id + "/comments"@)
    ||| exists|id: Seq<char>|
        id.len() > 0 && !id.contains('/') && path == #[trigger] ("/t/"@ + id + "/status"@)
}

/// There is nothing at any other address, nor for any other method.
#[verifier::rlimit(40)]
pub proof fn law_nothing_else_exists(state: UiState, stylesheet: Seq<char>, request: Seq<u8>)
    requires
        valid_utf8(request),
        ({
            let method = method_of(decode_utf8(request));
            let path = path_of(decode_utf8(request));
            &&& !(method == "GET"@ && is_page(path))
            &&& !(method == "POST"@ && is_form_target(path))
        }),
    ensures
        routed(state, stylesheet, request) == RoutedView::Respond(not_found_view()),
{
    let path = path_of(decode_utf8(request));
    reveal_strlit("/t/");
    if "/t/"@.is_prefix_of(path) {
        assert("/t/"@ + path.skip(3) =~= path);
    }
    if names_ticket(path, "/comments"@) {
        assert("/t/"@ + ticket_in(path, "/comments"@) + "/comments"@ =~= path);
    }
    if names_ticket(path, "/status"@) {
        assert("/t/"@ + ticket_in(path, "/status"@) + "/status"@ =~= path);
    }
}

/// Whatever is answered without a call is a response with status 200, 400 or 404.
#[verifier::rlimit(40)]
pub proof fn law_answers_are_responses(state: UiState, stylesheet: Seq<char>, request: Seq<u8>)
    ensures
        routed(state, stylesheet, request) matches Routed::Respond(bytes) ==> exists|
            status: u16,
            content_type: Seq<char>,
            body: Seq<u8>,
        |
            bytes == #[trigger] response(status, content_type, body) && is_printable(content_type)
                && (status == 200 || status == 400 || status == 404),
{
    reveal_strlit("text/plain");
    reveal_strlit("text/css; charset=utf-8");
    reveal_strlit("text/html; charset=utf-8");
    assert(is_printable("text/plain"@));
    assert(is_printable("text/css; charset=utf-8"@));
    assert(is_printable(crate::http::HTML@));
}

/// After a call, the browser is redirected exactly where the API reports
/// success. Otherwise it gets an error page with the status of the API, or with
/// status 502 where there is no reply to go by.
pub proof fn law_outcome_decides_the_answer(
    outcome: Result<(u16, Seq<char>), Seq<char>>,
    location: Seq<char>,
)
    ensures
        outcome matches Ok((status, _)) ==> if 200 <= status < 300 {
            post_response(outcome, location) == redirect(location)
        } else {
            exists|text: Seq<char>|
                post_response(outcome, location) == #[trigger] html_response(status, text)
        },
        outcome is Err ==> exists|text: Seq<char>|
            post_response(outcome, location) == #[trigger] html_response(502, text),
{
    match outcome {
        Ok((status, body)) => {
            let title = "upstream returned an error"@;
            assert(api_error_view(status, body) == html_response(
                status,
                page_text(title, error_body(title, api_error_detail(status, body))),
            ));
        },
        Err(e) => {
            let title = "upstream unavailable"@;
            assert(error_view(502, title, e) == html_response(
                502,
                page_text(title, error_body(title, e)),
            ));
        },
    }
}

} // verus!
