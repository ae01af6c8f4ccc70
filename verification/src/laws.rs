//! What holds of the whole way from a browser's request to its answer or to the
//! call of the tickets API.
//!
//! The laws speak of requests as browsers write them, and of calls and answers
//! as they are read at the other end.
use crate::api::law_request_is_read_back;
use crate::api::request_bytes;
use crate::form::blank_line;
use crate::form::encoded_form;
use crate::form::field_texts;
use crate::form::is_value_of;
use crate::form::law_first_field_counts;
use crate::form::law_posted_form_round_trip;
use crate::form::posted_fields;
use crate::html::escaped;
use crate::html::PAGE_HEAD;
use crate::html::PAGE_MIDDLE;
use crate::html::PAGE_TAIL;
use crate::http::html_response;
use crate::http::redirect;
use crate::http::response;
use crate::http::HTML;
use crate::json::law_comment_is_read_back;
use crate::json::law_status_is_read_back;
use crate::json::law_ticket_is_read_back;
use crate::json::new_comment_json;
use crate::json::new_ticket_json;
use crate::json::read_object;
use crate::json::set_status_json;
use crate::reply::has_blank_line;
use crate::reply::header_end;
use crate::reply::is_complete;
use crate::reply::law_response_is_read_back;
use crate::reply::lemma_no_blank_line_after;
use crate::reply::lemma_one_line;
use crate::reply::line_end;
use crate::reply::reply_of;
use crate::reply::splits_character;
use crate::routes::method_of;
use crate::routes::names_ticket;
use crate::routes::path_of;
use crate::routes::post_response;
use crate::routes::routed;
use crate::routes::ticket_in;
use crate::routes::RoutedView;
use crate::state::UiState;
use crate::text::decimal;
use crate::text::find;
use crate::text::first_line;
use crate::text::law_numbers_are_read_in_decimal;
use crate::text::lemma_find;
use crate::text::lemma_find_is;
use crate::text::lemma_first_line_append;
use crate::text::lemma_split_first;
use crate::text::lemma_split_none;
use crate::text::lemma_two_words;
use crate::text::occurs_at;
use crate::text::parse_decimal;
use crate::text::unsigned;
use crate::text::writes_number;
use crate::text::CharClass;
use crate::views::detail_view;
use crate::views::error_view;
use crate::views::list_view;
use crate::views::new_view;
use crate::views::not_found_view;
use crate::views::DETAIL_COMMENT_FORM;
use crate::views::DETAIL_END;
use crate::views::DETAIL_HEADING;
use crate::views::DETAIL_STATUS_FORM;
use vstd::prelude::*;
use vstd::utf8::decode_utf8;
use vstd::utf8::encode_utf8;
use vstd::utf8::valid_utf8;

verus! {

// ---------------------------------------------------------------------------
// Requests
// ---------------------------------------------------------------------------
/// Whether there is no white space in the text.
pub open spec fn is_solid(s: Seq<char>) -> bool {
    forall|i: int| 0 <= i < s.len() ==> !CharClass::Whitespace.has(#[trigger] s[i])
}

/// Whether the two make up the target of a request: a path, and a query or none.
pub open spec fn is_target(path: Seq<char>, query: Seq<char>) -> bool {
    &&& path.len() > 0 && is_solid(path) && !path.contains('?')
    &&& is_solid(query) && (query.len() > 0 ==> query[0] == '?')
}

/// Whether the text can follow the target of a request: nothing, or something
/// that white space parts from it.
pub open spec fn is_apart(rest: Seq<char>) -> bool {
    rest.len() > 0 ==> CharClass::Whitespace.has(rest[0])
}

/// A request: method, path, query, and all the rest.
pub open spec fn request_for(
    method: Seq<char>,
    path: Seq<char>,
    query: Seq<char>,
    rest: Seq<char>,
) -> Seq<char> {
    method + seq![' '] + path + query + rest
}

/// The method of a request is what stands before the first space, the path what
/// stands between that and the query, whatever follows.
pub proof fn law_request_line(
    method: Seq<char>,
    path: Seq<char>,
    query: Seq<char>,
    rest: Seq<char>,
)
    requires
        method.len() > 0 && is_solid(method),
        is_target(path, query),
        is_apart(rest),
    ensures
        method_of(request_for(method, path, query, rest)) == method,
        path_of(request_for(method, path, query, rest)) == path,
{
    let class = CharClass::Whitespace;
    let target = path + query;
    let front = method + seq![' '] + target;
    let text = request_for(method, path, query, rest);
    assert(text =~= front + rest);
    assert forall|i: int| 0 <= i < target.len() implies !class.has(#[trigger] target[i]) by {
        if i < path.len() {
            assert(target[i] == path[i]);
        } else {
            assert(target[i] == query[i - path.len()]);
        }
    }
    assert forall|i: int| 0 <= i < front.len() implies front[i] != '\n' by {
        if i < method.len() {
            assert(front[i] == method[i]);
        } else if i > method.len() {
            assert(front[i] == target[i - method.len() - 1]);
        }
    }
    assert(front.last() == target.last());
    assert(class.has('\r'));
    lemma_first_line_append(front, rest);
    lemma_two_words(method, seq![' '], target, first_line(rest), class);
    if query.len() == 0 {
        assert(target =~= path);
        lemma_split_none(path, seq!['?']);
    } else {
        assert(target =~= path + seq!['?'] + query.drop_first());
        lemma_split_first(path, seq!['?'], query.drop_first());
    }
}

/// Bytes that are not UTF-8 are refused.
pub proof fn law_bytes_that_are_not_text_are_refused(
    state: UiState,
    stylesheet: Seq<char>,
    request: Seq<u8>,
)
    requires
        !valid_utf8(request),
    ensures
        routed(state, stylesheet, request) == RoutedView::Respond(
            response(400, "text/plain"@, encode_utf8("bad request\n"@)),
        ),
{
}

/// The addresses that can be asked for, and what is there: whatever the query
/// and the headers are, `/healthz` says that all is well, `/static/style.css`
/// is the stylesheet, `/` the list and `/new` the form for a new ticket.
pub proof fn law_fixed_pages(
    state: UiState,
    stylesheet: Seq<char>,
    query: Seq<char>,
    rest: Seq<char>,
)
    requires
        is_solid(query) && (query.len() > 0 ==> query[0] == '?'),
        is_apart(rest),
    ensures
        routed(
            state,
            stylesheet,
            encode_utf8(request_for("GET"@, "/healthz"@, query, rest)),
        ) == RoutedView::Respond(response(200, "text/plain"@, encode_utf8("ok\n"@))),
        routed(
            state,
            stylesheet,
            encode_utf8(request_for("GET"@, "/static/style.css"@, query, rest)),
        ) == RoutedView::Respond(
            response(200, "text/css; charset=utf-8"@, encode_utf8(stylesheet)),
        ),
        routed(
            state,
            stylesheet,
            encode_utf8(request_for("GET"@, "/"@, query, rest)),
        ) == RoutedView::Respond(list_view()),
        routed(
            state,
            stylesheet,
            encode_utf8(request_for("GET"@, "/new"@, query, rest)),
        ) == RoutedView::Respond(new_view()),
{
    lemma_fixed_paths();
    lemma_get(state, stylesheet, "/healthz"@, query, rest);
    lemma_get(state, stylesheet, "/static/style.css"@, query, rest);
    lemma_get(state, stylesheet, "/"@, query, rest);
    lemma_get(state, stylesheet, "/new"@, query, rest);
}

/// The fixed addresses are paths, and all different.
proof fn lemma_fixed_paths()
    ensures
        is_solid("/healthz"@) && !"/healthz"@.contains('?') && "/healthz"@.len() == 8,
        is_solid("/static/style.css"@) && !"/static/style.css"@.contains('?'),
        "/static/style.css"@.len() == 17,
        is_solid("/"@) && !"/"@.contains('?') && "/"@.len() == 1,
        is_solid("/new"@) && !"/new"@.contains('?') && "/new"@.len() == 4,
{
    reveal_strlit("/healthz");
    reveal_strlit("/static/style.css");
    reveal_strlit("/");
    reveal_strlit("/new");
}

proof fn lemma_get(
    state: UiState,
    stylesheet: Seq<char>,
    path: Seq<char>,
    query: Seq<char>,
    rest: Seq<char>,
)
    requires
        is_target(path, query),
        is_apart(rest),
    ensures
        ({
            let text = request_for("GET"@, path, query, rest);
            routed(state, stylesheet, encode_utf8(text)) == RoutedView::Respond(
                crate::routes::got(stylesheet, path),
            )
        }),
{
    let text = request_for("GET"@, path, query, rest);
    reveal_strlit("GET");
    law_request_line("GET"@, path, query, rest);
    vstd::utf8::encode_utf8_valid_utf8(text);
    vstd::utf8::encode_utf8_decode_utf8(text);
}

/// Every text that is not empty and holds no slash names a ticket, and there is
/// a page for it; without an id, or with a slash in it, there is none.
pub proof fn law_ticket_pages(
    state: UiState,
    stylesheet: Seq<char>,
    id: Seq<char>,
    query: Seq<char>,
    rest: Seq<char>,
)
    requires
        is_target("/t/"@ + id, query),
        is_apart(rest),
    ensures
        routed(
            state,
            stylesheet,
            encode_utf8(request_for("GET"@, "/t/"@ + id, query, rest)),
        ) == RoutedView::Respond(
            if id.len() > 0 && !id.contains('/') {
                detail_view(id)
            } else {
                not_found_view()
            },
        ),
{
    reveal_strlit("/t/");
    reveal_strlit("/healthz");
    reveal_strlit("/static/style.css");
    reveal_strlit("/");
    reveal_strlit("/new");
    let path = "/t/"@ + id;
    lemma_get(state, stylesheet, path, query, rest);
    assert(path[1] == 't');
    assert(path.len() >= 3);
    assert("/t/"@.is_prefix_of(path)) by {
        assert(path.subrange(0, 3) =~= "/t/"@);
    }
    assert(path.skip(3) =~= id);
}

// ---------------------------------------------------------------------------
// Forms
// ---------------------------------------------------------------------------
/// A form as a browser posts it: path and query, the headers, a blank line and
/// the fields.
pub open spec fn posted_form(
    path: Seq<char>,
    query: Seq<char>,
    headers: Seq<char>,
    fields: Seq<(Seq<u8>, Seq<u8>)>,
) -> Seq<char> {
    request_for("POST"@, path, query, headers + blank_line() + encoded_form(fields))
}

/// Whether the text can stand between the target of a request and the blank
/// line: white space first, and no blank line before that one.
pub open spec fn is_headers(headers: Seq<char>) -> bool {
    is_apart(headers) && !has_blank_line(headers + line_end() + seq!['\r'])
}

/// The fields of a posted form, as the handler of the form gets them.
proof fn lemma_posted_form(
    path: Seq<char>,
    query: Seq<char>,
    headers: Seq<char>,
    fields: Seq<(Seq<u8>, Seq<u8>)>,
)
    requires
        is_target(path, query),
        is_headers(headers),
    ensures
        ({
            let text = posted_form(path, query, headers, fields);
            &&& method_of(text) == "POST"@
            &&& path_of(text) == path
            &&& posted_fields(text) == Some(field_texts(fields))
            &&& valid_utf8(encode_utf8(text))
            &&& decode_utf8(encode_utf8(text)) == text
        }),
{
    let text = posted_form(path, query, headers, fields);
    let front = "POST"@ + seq![' '] + path + query;
    let head = front + headers;
    let blank = blank_line();
    let rest = headers + blank + encoded_form(fields);
    reveal_strlit("POST");
    vstd::utf8::encode_utf8_valid_utf8(text);
    vstd::utf8::encode_utf8_decode_utf8(text);
    assert(headers.len() > 0 ==> rest[0] == headers[0]);
    assert(headers.len() == 0 ==> rest[0] == blank[0]);
    law_request_line("POST"@, path, query, rest);
    // the blank line after the headers is the first
    let most = head + line_end() + seq!['\r'];
    assert(!front.contains('\r')) by {
        assert forall|i: int| 0 <= i < front.len() implies front[i] != '\r' by {
            if 5 <= i < 5 + path.len() {
                assert(front[i] == path[i - 5]);
            } else if i >= 5 + path.len() {
                assert(front[i] == query[i - 5 - path.len()]);
            }
        }
    }
    lemma_no_blank_line_after(front, headers + line_end() + seq!['\r']);
    assert(front + (headers + line_end() + seq!['\r']) =~= most);
    let s = head + blank;
    let n = head.len() as int;
    assert(s.subrange(n, n + 4) =~= blank);
    assert forall|j: int| 0 <= j < n implies !occurs_at(s, blank, j) by {
        if occurs_at(s, blank, j) {
            let found = s.subrange(j, j + 4);
            assert(found[0] == s[j] && found[1] == s[j + 1]);
            assert(found[2] == s[j + 2] && found[3] == s[j + 3]);
            assert(most[j] == s[j] && most[j + 1] == s[j + 1]);
            assert(most[j + 2] == s[j + 2] && most[j + 3] == s[j + 3]);
        }
    }
    lemma_find_is(s, blank, n);
    law_posted_form_round_trip(head, fields);
    assert(head + blank + encoded_form(fields) =~= text);
}

/// A form posted to `/new` creates the ticket it describes: the tickets API is
/// called with the very texts of its fields, and the browser then goes to the
/// list. Without a title, a reporter or an assignee the form is refused.
/// Headers and fields can be as many and as long as they may.
pub proof fn law_new_ticket_is_created(
    state: UiState,
    stylesheet: Seq<char>,
    query: Seq<char>,
    headers: Seq<char>,
    fields: Seq<(Seq<u8>, Seq<u8>)>,
    title: Seq<char>,
    body: Seq<char>,
    reporter: Seq<char>,
    assignee: Seq<char>,
)
    requires
        is_target("/new"@, query),
        is_headers(headers),
        is_value_of(field_texts(fields), "title"@, title),
        is_value_of(field_texts(fields), "body"@, body),
        is_value_of(field_texts(fields), "reporter"@, reporter),
        is_value_of(field_texts(fields), "assignee"@, assignee),
    ensures
        routed(
            state,
            stylesheet,
            encode_utf8(posted_form("/new"@, query, headers, fields)),
        ) == if title.len() > 0 && reporter.len() > 0 && assignee.len() > 0 {
            RoutedView::Post {
                address: state.api_addr@,
                request: request_bytes(
                    state,
                    "/v1/tickets"@,
                    new_ticket_json(title, body, reporter, assignee),
                ),
                location: "/"@,
            }
        } else {
            RoutedView::Respond(
                error_view(
                    400,
                    "missing required fields"@,
                    "title, reporter, and assignee are required."@,
                ),
            )
        },
{
    lemma_posted_form("/new"@, query, headers, fields);
    law_first_field_counts(field_texts(fields), "title"@, title);
    law_first_field_counts(field_texts(fields), "body"@, body);
    law_first_field_counts(field_texts(fields), "reporter"@, reporter);
    law_first_field_counts(field_texts(fields), "assignee"@, assignee);
    reveal_strlit("POST");
    reveal_strlit("GET");
    assert("POST"@.len() != "GET"@.len());
}

/// The paths under a ticket, and which form is handled there.
proof fn lemma_form_path(id: Seq<char>)
    requires
        id.len() > 0,
        !id.contains('/'),
    ensures
        names_ticket("/t/"@ + id + "/comments"@, "/comments"@),
        ticket_in("/t/"@ + id + "/comments"@, "/comments"@) == id,
        !names_ticket("/t/"@ + id + "/status"@, "/comments"@),
        names_ticket("/t/"@ + id + "/status"@, "/status"@),
        ticket_in("/t/"@ + id + "/status"@, "/status"@) == id,
        "/t/"@ + id + "/comments"@ != "/new"@,
        "/t/"@ + id + "/status"@ != "/new"@,
{
    reveal_strlit("/t/");
    reveal_strlit("/new");
    reveal_strlit("/comments");
    reveal_strlit("/status");
    let c = "/t/"@ + id + "/comments"@;
    let s = "/t/"@ + id + "/status"@;
    let m = c.len() as int;
    let n = s.len() as int;
    assert(c.subrange(0, 3) =~= "/t/"@);
    assert(s.subrange(0, 3) =~= "/t/"@);
    assert(c.subrange(m - 9, m) =~= "/comments"@);
    assert(s.subrange(n - 7, n) =~= "/status"@);
    assert(ticket_in(c, "/comments"@) =~= id);
    assert(ticket_in(s, "/status"@) =~= id);
    assert(c[1] == 't' && s[1] == 't');
    assert("/new"@[1] == 'n');
    if "/comments"@.is_suffix_of(s) {
        assert(s.subrange(n - 9, n)[6] == s[n - 3]);
        assert(s[n - 3] == "/status"@[4]);
        assert("/comments"@[6] == 'n');
    }
}

/// A number is a ticket id that can stand in a path.
proof fn lemma_number_in_path(id: Seq<char>, n: int)
    requires
        writes_number(id, n),
    ensures
        id.len() > 0,
        !id.contains('/'),
        is_solid(id),
        !id.contains('?'),
{
    assert forall|i: int| 0 <= i < id.len() implies {
        let c = #[trigger] id[i];
        c == '+' || '0' <= c <= '9'
    } by {
        if unsigned(id) == id {
            assert('0' <= unsigned(id)[i] <= '9');
        } else if i > 0 {
            assert(unsigned(id)[i - 1] == id[i]);
            assert('0' <= unsigned(id)[i - 1] <= '9');
        }
    }
}

proof fn lemma_ticket_target(id: Seq<char>, query: Seq<char>)
    requires
        is_solid(id),
        !id.contains('?'),
        is_solid(query) && (query.len() > 0 ==> query[0] == '?'),
    ensures
        is_target("/t/"@ + id + "/comments"@, query),
        is_target("/t/"@ + id + "/status"@, query),
{
    reveal_strlit("/t/");
    reveal_strlit("/comments");
    reveal_strlit("/status");
    let c = "/t/"@ + id + "/comments"@;
    let s = "/t/"@ + id + "/status"@;
    assert forall|i: int| 0 <= i < c.len() implies !CharClass::Whitespace.has(#[trigger] c[i])
        && c[i] != '?' by {
        if 3 <= i < 3 + id.len() {
            assert(c[i] == id[i - 3]);
        } else if i >= 3 + id.len() {
            assert(c[i] == "/comments"@[i - 3 - id.len()]);
        }
    }
    assert forall|i: int| 0 <= i < s.len() implies !CharClass::Whitespace.has(#[trigger] s[i])
        && s[i] != '?' by {
        if 3 <= i < 3 + id.len() {
            assert(s[i] == id[i - 3]);
        } else if i >= 3 + id.len() {
            assert(s[i] == "/status"@[i - 3 - id.len()]);
        }
    }
}

/// A form posted to the comment path of a ticket adds the comment to the ticket
/// with that very number, in the very words of its fields, and the browser then
/// goes to that ticket. Without an author or a body the form is refused.
pub proof fn law_comment_is_added(
    state: UiState,
    stylesheet: Seq<char>,
    id: Seq<char>,
    n: nat,
    query: Seq<char>,
    headers: Seq<char>,
    fields: Seq<(Seq<u8>, Seq<u8>)>,
    author: Seq<char>,
    body: Seq<char>,
)
    requires
        writes_number(id, n as int),
        n <= u64::MAX,
        is_solid(query) && (query.len() > 0 ==> query[0] == '?'),
        is_headers(headers),
        is_value_of(field_texts(fields), "author"@, author),
        is_value_of(field_texts(fields), "body"@, body),
    ensures
        routed(
            state,
            stylesheet,
            encode_utf8(posted_form("/t/"@ + id + "/comments"@, query, headers, fields)),
        ) == if author.len() > 0 && body.len() > 0 {
            RoutedView::Post {
                address: state.api_addr@,
                request: request_bytes(
                    state,
                    "/v1/tickets/"@ + decimal(n) + "/comment"@,
                    new_comment_json(author, body),
                ),
                location: "/t/"@ + decimal(n),
            }
        } else {
            RoutedView::Respond(
                error_view(
                    400,
                    "missing required fields"@,
                    "author and body are required."@,
                ),
            )
        },
{
    let path = "/t/"@ + id + "/comments"@;
    lemma_number_in_path(id, n as int);
    lemma_ticket_target(id, query);
    lemma_posted_form(path, query, headers, fields);
    lemma_form_path(id);
    law_numbers_are_read_in_decimal(id, u64::MAX as nat);
    law_first_field_counts(field_texts(fields), "author"@, author);
    law_first_field_counts(field_texts(fields), "body"@, body);
    reveal_strlit("POST");
    reveal_strlit("GET");
    assert("POST"@.len() != "GET"@.len());
}

/// A form posted to the status path of a ticket gives the ticket with that very
/// number the status that the form names, and the browser then goes to that
/// ticket. There are four statuses; a form that names another is refused.
pub proof fn law_status_is_set(
    state: UiState,
    stylesheet: Seq<char>,
    id: Seq<char>,
    n: nat,
    query: Seq<char>,
    headers: Seq<char>,
    fields: Seq<(Seq<u8>, Seq<u8>)>,
    status: Seq<char>,
)
    requires
        writes_number(id, n as int),
        n <= u64::MAX,
        is_solid(query) && (query.len() > 0 ==> query[0] == '?'),
        is_headers(headers),
        is_value_of(field_texts(fields), "status"@, status),
    ensures
        routed(
            state,
            stylesheet,
            encode_utf8(posted_form("/t/"@ + id + "/status"@, query, headers, fields)),
        ) == if status == "open"@ || status == "in-progress"@ || status == "done"@ || status
            == "closed"@ {
            RoutedView::Post {
                address: state.api_addr@,
                request: request_bytes(
                    state,
                    "/v1/tickets/"@ + decimal(n) + "/status"@,
                    set_status_json(status),
                ),
                location: "/t/"@ + decimal(n),
            }
        } else {
            RoutedView::Respond(
                error_view(
                    400,
                    "bad status"@,
                    "valid values: open, in-progress, done, closed"@,
                ),
            )
        },
{
    let path = "/t/"@ + id + "/status"@;
    lemma_number_in_path(id, n as int);
    lemma_ticket_target(id, query);
    lemma_posted_form(path, query, headers, fields);
    lemma_form_path(id);
    law_numbers_are_read_in_decimal(id, u64::MAX as nat);
    law_first_field_counts(field_texts(fields), "status"@, status);
    reveal_strlit("POST");
    reveal_strlit("GET");
    assert("POST"@.len() != "GET"@.len());
}

/// A form for a ticket whose id is no number, or too large a one, is refused
/// whatever its fields are, and the browser is told the id.
pub proof fn law_bad_ids_are_refused(
    state: UiState,
    stylesheet: Seq<char>,
    id: Seq<char>,
    query: Seq<char>,
    headers: Seq<char>,
    fields: Seq<(Seq<u8>, Seq<u8>)>,
)
    requires
        id.len() > 0 && !id.contains('/') && is_solid(id) && !id.contains('?'),
        forall|n: int| #[trigger] writes_number(id, n) ==> n > u64::MAX,
        is_solid(query) && (query.len() > 0 ==> query[0] == '?'),
        is_headers(headers),
    ensures
        routed(
            state,
            stylesheet,
            encode_utf8(posted_form("/t/"@ + id + "/comments"@, query, headers, fields)),
        ) == RoutedView::Respond(error_view(400, "bad ticket id"@, id)),
        routed(
            state,
            stylesheet,
            encode_utf8(posted_form("/t/"@ + id + "/status"@, query, headers, fields)),
        ) == RoutedView::Respond(error_view(400, "bad ticket id"@, id)),
{
    lemma_ticket_target(id, query);
    lemma_posted_form("/t/"@ + id + "/comments"@, query, headers, fields);
    lemma_posted_form("/t/"@ + id + "/status"@, query, headers, fields);
    lemma_form_path(id);
    law_numbers_are_read_in_decimal(id, u64::MAX as nat);
    assert(parse_decimal(id, u64::MAX as nat) is None);
    reveal_strlit("POST");
    reveal_strlit("GET");
    assert("POST"@.len() != "GET"@.len());
}

/// A form without a blank line after the headers has no body to read, and is
/// refused.
pub proof fn law_form_without_a_body_is_refused(
    state: UiState,
    stylesheet: Seq<char>,
    id: Seq<char>,
    n: nat,
    query: Seq<char>,
    rest: Seq<char>,
)
    requires
        writes_number(id, n as int),
        n <= u64::MAX,
        is_solid(query) && (query.len() > 0 ==> query[0] == '?'),
        is_apart(rest),
        !has_blank_line(rest),
    ensures
        ({
            let refusal = RoutedView::Respond(
                error_view(400, "bad form body"@, "no request body"@),
            );
            let comments = "/t/"@ + id + "/comments"@;
            let status = "/t/"@ + id + "/status"@;
            &&& routed(
                state,
                stylesheet,
                encode_utf8(request_for("POST"@, "/new"@, query, rest)),
            ) == refusal
            &&& routed(
                state,
                stylesheet,
                encode_utf8(request_for("POST"@, comments, query, rest)),
            ) == refusal
            &&& routed(
                state,
                stylesheet,
                encode_utf8(request_for("POST"@, status, query, rest)),
            ) == refusal
        }),
{
    lemma_number_in_path(id, n as int);
    lemma_ticket_target(id, query);
    lemma_fixed_paths();
    lemma_no_body("/new"@, query, rest);
    lemma_no_body("/t/"@ + id + "/comments"@, query, rest);
    lemma_no_body("/t/"@ + id + "/status"@, query, rest);
    lemma_form_path(id);
    law_numbers_are_read_in_decimal(id, u64::MAX as nat);
    assert("POST"@.len() == 4 && "GET"@.len() == 3) by {
        reveal_strlit("POST");
        reveal_strlit("GET");
    }
}

proof fn lemma_no_body(path: Seq<char>, query: Seq<char>, rest: Seq<char>)
    requires
        is_target(path, query),
        is_apart(rest),
        !has_blank_line(rest),
    ensures
        ({
            let text = request_for("POST"@, path, query, rest);
            &&& method_of(text) == "POST"@
            &&& path_of(text) == path
            &&& posted_fields(text) is None
            &&& valid_utf8(encode_utf8(text))
            &&& decode_utf8(encode_utf8(text)) == text
        }),
{
    let text = request_for("POST"@, path, query, rest);
    let front = "POST"@ + seq![' '] + path + query;
    reveal_strlit("POST");
    law_request_line("POST"@, path, query, rest);
    vstd::utf8::encode_utf8_valid_utf8(text);
    vstd::utf8::encode_utf8_decode_utf8(text);
    assert forall|i: int| 0 <= i < front.len() implies front[i] != '\r' by {
        if 5 <= i < 5 + path.len() {
            assert(front[i] == path[i - 5]);
        } else if i >= 5 + path.len() {
            assert(front[i] == query[i - 5 - path.len()]);
        }
    }
    lemma_no_blank_line_after(front, rest);
    assert(front + rest =~= text);
    lemma_find(text, blank_line());
    if let Some(j) = find(text, blank_line()) {
        let found = text.subrange(j, j + 4);
        assert(found[0] == text[j] && found[1] == text[j + 1]);
        assert(found[2] == text[j + 2] && found[3] == text[j + 3]);
    }
}

// ---------------------------------------------------------------------------
// Calls, as the tickets API reads them
// ---------------------------------------------------------------------------
/// What the tickets API reads out of a call: the members of the JSON object
/// after the first blank line.
pub open spec fn told(request: Seq<u8>) -> Option<Seq<(Seq<char>, Seq<char>)>> {
    match header_end(request) {
        Some(i) => read_object(decode_utf8(request.skip(i + 4))),
        None => None,
    }
}

/// Whether address and token leave the header section of a call whole.
pub open spec fn keeps_calls_whole(state: UiState) -> bool {
    &&& !has_blank_line(state.api_addr@ + line_end())
    &&& !has_blank_line(state.api_token@ + line_end())
}

/// The tickets API is told of a new ticket what the form said: title, body,
/// reporter and assignee, each as it is.
pub proof fn law_api_is_told_the_ticket(
    state: UiState,
    path: Seq<char>,
    title: Seq<char>,
    body: Seq<char>,
    reporter: Seq<char>,
    assignee: Seq<char>,
)
    requires
        keeps_calls_whole(state),
        !has_blank_line(path),
        encode_utf8(new_ticket_json(title, body, reporter, assignee)).len() <= usize::MAX,
    ensures
        told(request_bytes(state, path, new_ticket_json(title, body, reporter, assignee)))
            == Some(
            seq![
                ("title"@, title),
                ("body"@, body),
                ("reporter"@, reporter),
                ("assignee"@, assignee),
            ],
        ),
{
    let json = new_ticket_json(title, body, reporter, assignee);
    law_request_is_read_back(state, path, json);
    law_ticket_is_read_back(title, body, reporter, assignee);
    vstd::utf8::encode_utf8_decode_utf8(json);
}

/// The tickets API is told of a comment what the form said: author and body,
/// each as it is.
pub proof fn law_api_is_told_the_comment(
    state: UiState,
    path: Seq<char>,
    author: Seq<char>,
    body: Seq<char>,
)
    requires
        keeps_calls_whole(state),
        !has_blank_line(path),
        encode_utf8(new_comment_json(author, body)).len() <= usize::MAX,
    ensures
        told(request_bytes(state, path, new_comment_json(author, body))) == Some(
            seq![("author"@, author), ("body"@, body)],
        ),
{
    let json = new_comment_json(author, body);
    law_request_is_read_back(state, path, json);
    law_comment_is_read_back(author, body);
    vstd::utf8::encode_utf8_decode_utf8(json);
}

/// The tickets API is told the status that the form named.
pub proof fn law_api_is_told_the_status(state: UiState, path: Seq<char>, status: Seq<char>)
    requires
        keeps_calls_whole(state),
        !has_blank_line(path),
        encode_utf8(set_status_json(status)).len() <= usize::MAX,
    ensures
        told(request_bytes(state, path, set_status_json(status))) == Some(
            seq![("status"@, status)],
        ),
{
    let json = set_status_json(status);
    law_request_is_read_back(state, path, json);
    law_status_is_read_back(status);
    vstd::utf8::encode_utf8_decode_utf8(json);
}

// ---------------------------------------------------------------------------
// Answers, as browsers read them
// ---------------------------------------------------------------------------
/// What a browser reads out of an answer: the status and the text after the
/// header section.
pub open spec fn is_shown(answer: Seq<u8>, status: u16, text: Seq<char>) -> bool {
    &&& reply_of(answer) == Ok::<(u16, Seq<char>), Seq<char>>((status, text))
    &&& !splits_character(answer)
    &&& is_complete(answer)
}

/// A page is shown whole, with the status it was made with.
pub proof fn law_pages_are_shown(status: u16, text: Seq<char>)
    requires
        encode_utf8(text).len() <= usize::MAX,
    ensures
        is_shown(html_response(status, text), status, text),
{
    reveal_strlit("text/html; charset=utf-8");
    assert(!HTML@.contains('\n'));
    lemma_one_line(HTML@);
    vstd::utf8::encode_utf8_valid_utf8(text);
    vstd::utf8::encode_utf8_decode_utf8(text);
    law_response_is_read_back(status, HTML@, encode_utf8(text));
}

/// A page that reports an error shows its title and all of its detail, both as
/// plain text, with the status of the error.
pub proof fn law_error_pages_show_the_error(status: u16, title: Seq<char>, detail: Seq<char>)
    ensures
        exists|text: Seq<char>|
            {
                &&& error_view(status, title, detail) == #[trigger] html_response(status, text)
                &&& text == PAGE_HEAD@ + escaped(title) + PAGE_MIDDLE@ + ("<h1>"@ + escaped(title)
                    + "</h1><p>"@ + escaped(detail) + "</p><p><a href=\"/\">home</a></p>"@)
                    + PAGE_TAIL@
            },
{
    assert(error_view(status, title, detail) == html_response(
        status,
        crate::html::page_text(title, crate::views::error_body(title, detail)),
    ));
}

/// A page that reports an error of the tickets API has the status of that
/// error, and shows it together with all that the API said.
pub proof fn law_api_errors_are_passed_on(status: u16, body: Seq<char>, location: Seq<char>)
    requires
        !(200 <= status < 300),
    ensures
        post_response(Ok((status, body)), location) == error_view(
            status,
            "upstream returned an error"@,
            "HTTP "@ + decimal(status as nat) + " from tickets API: "@ + body,
        ),
{
}

/// A call that fails is answered by a page that shows all that is known of the
/// failure.
pub proof fn law_call_failures_are_passed_on(e: Seq<char>, location: Seq<char>)
    ensures
        post_response(Err(e), location) == error_view(502, "upstream unavailable"@, e),
{
}

/// The page of a ticket shows its id, as plain text, and holds two forms whose
/// targets are the comment path and the status path of that id.
pub proof fn law_ticket_page_shows_the_id(id: Seq<char>)
    ensures
        exists|text: Seq<char>|
            {
                &&& detail_view(id) == #[trigger] html_response(200, text)
                &&& text == PAGE_HEAD@ + escaped("ticket #"@ + escaped(id)) + PAGE_MIDDLE@ + (
                DETAIL_HEADING@ + escaped(id) + DETAIL_COMMENT_FORM@ + ("/t/"@ + escaped(id)
                    + "/comments"@) + DETAIL_STATUS_FORM@ + ("/t/"@ + escaped(id) + "/status"@)
                    + DETAIL_END@) + PAGE_TAIL@
            },
{
    assert(detail_view(id) == html_response(
        200,
        crate::html::page_text(
            "ticket #"@ + escaped(id),
            crate::views::detail_body(escaped(id)),
        ),
    ));
}

/// After a call that succeeded the browser goes where the call leads to, for
/// every status of success and whatever the API said.
pub proof fn law_success_redirects(status: u16, body: Seq<char>, location: Seq<char>)
    requires
        200 <= status < 300,
    ensures
        post_response(Ok((status, body)), location) == redirect(location),
{
}

} // verus!
