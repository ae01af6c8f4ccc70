//! The pages of the user interface.
use crate::html::escaped;
use crate::html::html_escape;
use crate::html::page;
use crate::html::page_text;
use crate::http::html_response;
use crate::http::http_response;
use crate::http::HTML;
use crate::text::decimal;
use crate::text::write_decimal;
use vstd::prelude::*;

verus! {

/// Body of the list page.
pub const LIST_BODY: &'static str = "<h1>tickets</h1>\
     <p class=\"placeholder\">List view — pending the read-path decision (see DESIGN.md §3 open question).</p>\
     <p><a href=\"/new\">+ new ticket</a></p>";

/// Body of the page with the form for a new ticket.
pub const NEW_BODY: &'static str = "<p><a href=\"/\">&larr; back</a></p>\
     <h1>new ticket</h1>\
     <form method=\"post\" action=\"/new\">\
       <label>title<br><input name=\"title\" required></label>\
       <label>body<br><textarea name=\"body\" rows=\"6\"></textarea></label>\
       <label>reporter<br><input name=\"reporter\" required></label>\
       <label>assignee<br><input name=\"assignee\" required></label>\
       <button type=\"submit\">create</button>\
     </form>";

/// Body of the page for an address that does not exist.
pub const NOT_FOUND_BODY: &'static str = "<h1>not found</h1><p><a href=\"/\">home</a></p>";

/// The detail page, up to the ticket id in its heading.
pub const DETAIL_HEADING: &'static str = "<p><a href=\"/\">&larr; back</a></p>\
     <h1>ticket #";

/// The detail page, from its heading to the target of the comment form.
pub const DETAIL_COMMENT_FORM: &'static str = "</h1>\
     <p class=\"placeholder\">Ticket header + comment thread — pending the read-path decision.</p>\
     <section>\
       <h2>add comment</h2>\
       <form method=\"post\" action=\"";

/// The detail page, from the target of the comment form to that of the status form.
pub const DETAIL_STATUS_FORM: &'static str = "\">\
         <label>author<br><input name=\"author\" required></label>\
         <label>body<br><textarea name=\"body\" rows=\"4\" required></textarea></label>\
         <button type=\"submit\">add</button>\
       </form>\
     </section>\
     <section>\
       <h2>set status</h2>\
       <form method=\"post\" action=\"";

/// The detail page, after the target of the status form.
pub const DETAIL_END: &'static str = "\">\
         <label>status<br>\
           <select name=\"status\">\
             <option value=\"open\">open</option>\
             <option value=\"in-progress\">in-progress</option>\
             <option value=\"done\">done</option>\
             <option value=\"closed\">closed</option>\
           </select>\
         </label>\
         <button type=\"submit\">update</button>\
       </form>\
     </section>";

/// The list page.
pub open spec fn list_view() -> Seq<u8> {
    html_response(200, page_text("tickets"@, LIST_BODY@))
}

/// The page with the form for a new ticket.
pub open spec fn new_view() -> Seq<u8> {
    html_response(200, page_text("new ticket"@, NEW_BODY@))
}

/// The page for an address that does not exist.
pub open spec fn not_found_view() -> Seq<u8> {
    html_response(404, page_text("not found"@, NOT_FOUND_BODY@))
}

/// Where the comment form of a ticket posts to.
pub open spec fn comment_target(id: Seq<char>) -> Seq<char> {
    "/t/"@ + id + "/comments"@
}

/// Where the status form of a ticket posts to.
pub open spec fn status_target(id: Seq<char>) -> Seq<char> {
    "/t/"@ + id + "/status"@
}

/// Body of the detail page. `id` is HTML: the id of the ticket, escaped.
pub open spec fn detail_body(id: Seq<char>) -> Seq<char> {
    DETAIL_HEADING@ + id + DETAIL_COMMENT_FORM@ + comment_target(id) + DETAIL_STATUS_FORM@
        + status_target(id) + DETAIL_END@
}

/// The detail page of the ticket whose id is the given text. The title of a
/// page is escaped as plain text, so the escaped id is escaped once more there.
pub open spec fn detail_view(id: Seq<char>) -> Seq<u8> {
    html_response(200, page_text("ticket #"@ + escaped(id), detail_body(escaped(id))))
}

/// Body of a page that reports an error.
pub open spec fn error_body(title: Seq<char>, detail: Seq<char>) -> Seq<char> {
    "<h1>"@ + escaped(title) + "</h1><p>"@ + escaped(detail) + "</p><p><a href=\"/\">home</a></p>"@
}

/// A page that reports an error.
pub open spec fn error_view(status: u16, title: Seq<char>, detail: Seq<char>) -> Seq<u8> {
    html_response(status, page_text(title, error_body(title, detail)))
}

/// What the page says of an error reported by the tickets API.
pub open spec fn api_error_detail(status: u16, body: Seq<char>) -> Seq<char> {
    "HTTP "@ + decimal(status as nat) + " from tickets API: "@ + body
}

/// A page that reports an error of the tickets API.
pub open spec fn api_error_view(status: u16, body: Seq<char>) -> Seq<u8> {
    error_view(status, "upstream returned an error"@, api_error_detail(status, body))
}

fn html(status: u16, text: String) -> (r: Vec<u8>)
    ensures
        r@ == html_response(status, text@),
{
    http_response(status, HTML, text.as_str().as_bytes_vec())
}

/// The list of tickets.
pub fn render_list_view() -> (r: Vec<u8>)
    ensures
        r@ == list_view(),
{
    html(200, page("tickets", LIST_BODY))
}

/// One ticket, with the forms that change it.
pub fn render_detail_view(id_str: &str) -> (r: Vec<u8>)
    ensures
        r@ == detail_view(id_str@),
{
    let id_safe = html_escape(id_str);
    let mut comment_action = "/t/".to_owned();
    comment_action.append(id_safe.as_str());
    comment_action.append("/comments");
    let mut status_action = "/t/".to_owned();
    status_action.append(id_safe.as_str());
    status_action.append("/status");
    let mut title = "ticket #".to_owned();
    title.append(id_safe.as_str());
    let mut body = DETAIL_HEADING.to_owned();
    body.append(id_safe.as_str());
    body.append(DETAIL_COMMENT_FORM);
    body.append(comment_action.as_str());
    body.append(DETAIL_STATUS_FORM);
    body.append(status_action.as_str());
    body.append(DETAIL_END);
    html(200, page(title.as_str(), body.as_str()))
}

/// The form for a new ticket.
pub fn render_new_view() -> (r: Vec<u8>)
    ensures
        r@ == new_view(),
{
    html(200, page("new ticket", NEW_BODY))
}

/// The answer to a request for anything that does not exist.
pub fn not_found() -> (r: Vec<u8>)
    ensures
        r@ == not_found_view(),
{
    html(404, page("not found", NOT_FOUND_BODY))
}

/// Reports an error. Title and detail are plain text.
pub fn render_error(status: u16, title: &str, detail: &str) -> (r: Vec<u8>)
    ensures
        r@ == error_view(status, title@, detail@),
{
    let mut body = "<h1>".to_owned();
    body.append(html_escape(title).as_str());
    body.append("</h1><p>");
    body.append(html_escape(detail).as_str());
    body.append("</p><p><a href=\"/\">home</a></p>");
    html(status, page(title, body.as_str()))
}

/// Reports an error of the tickets API, with its status and what it said.
pub fn render_api_error(status: u16, body: &str) -> (r: Vec<u8>)
    ensures
        r@ == api_error_view(status, body@),
{
    let mut detail = "HTTP ".to_owned();
    detail.append(write_decimal(status as u64).as_str());
    detail.append(" from tickets API: ");
    detail.append(body);
    render_error(status, "upstream returned an error", detail.as_str())
}

} // verus!
