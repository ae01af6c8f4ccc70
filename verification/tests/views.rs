use tickets_ui::http::http_response;
use tickets_ui::views::{
    not_found, render_api_error, render_detail_view, render_error, render_list_view,
    render_new_view,
};

fn page(title: &str, body: &str) -> String {
    format!(
        "<!doctype html>\
         <html lang=\"en\">\
         <head>\
         <meta charset=\"utf-8\">\
         <meta name=\"viewport\" content=\"width=device-width, initial-scale=1\">\
         <title>{}</title>\
         <link rel=\"stylesheet\" href=\"/static/style.css\">\
         </head>\
         <body><main>{}</main></body>\
         </html>",
        title, body
    )
}

fn html(status: u16, text: String) -> Vec<u8> {
    http_response(status, "text/html; charset=utf-8", text.into_bytes())
}

#[test]
fn the_list_page() {
    let body = "<h1>tickets</h1>\
         <p class=\"placeholder\">List view — pending the read-path decision (see DESIGN.md §3 open question).</p>\
         <p><a href=\"/new\">+ new ticket</a></p>";
    assert_eq!(render_list_view(), html(200, page("tickets", body)));
}

#[test]
fn the_form_page() {
    let body = "<p><a href=\"/\">&larr; back</a></p>\
         <h1>new ticket</h1>\
         <form method=\"post\" action=\"/new\">\
           <label>title<br><input name=\"title\" required></label>\
           <label>body<br><textarea name=\"body\" rows=\"6\"></textarea></label>\
           <label>reporter<br><input name=\"reporter\" required></label>\
           <label>assignee<br><input name=\"assignee\" required></label>\
           <button type=\"submit\">create</button>\
         </form>";
    assert_eq!(render_new_view(), html(200, page("new ticket", body)));
}

fn detail_body(id: &str) -> String {
    format!(
        "<p><a href=\"/\">&larr; back</a></p>\
         <h1>ticket #{id}</h1>\
         <p class=\"placeholder\">Ticket header + comment thread — pending the read-path decision.</p>\
         <section>\
           <h2>add comment</h2>\
           <form method=\"post\" action=\"/t/{id}/comments\">\
             <label>author<br><input name=\"author\" required></label>\
             <label>body<br><textarea name=\"body\" rows=\"4\" required></textarea></label>\
             <button type=\"submit\">add</button>\
           </form>\
         </section>\
         <section>\
           <h2>set status</h2>\
           <form method=\"post\" action=\"/t/{id}/status\">\
             <label>status<br>\
               <select name=\"status\">\
                 <option value=\"open\">open</option>\
                 <option value=\"in-progress\">in-progress</option>\
                 <option value=\"done\">done</option>\
                 <option value=\"closed\">closed</option>\
               </select>\
             </label>\
             <button type=\"submit\">update</button>\
           </form>\
         </section>",
        id = id,
    )
}

#[test]
fn the_detail_page() {
    assert_eq!(render_detail_view("7"), html(200, page("ticket #7", &detail_body("7"))));
}

#[test]
fn the_detail_page_escapes_the_id() {
    assert_eq!(
        render_detail_view("<b>\""),
        html(
            200,
            page("ticket #&amp;lt;b&amp;gt;&amp;quot;", &detail_body("&lt;b&gt;&quot;"))
        )
    );
}

#[test]
fn the_page_for_nothing() {
    assert_eq!(
        not_found(),
        html(404, page("not found", "<h1>not found</h1><p><a href=\"/\">home</a></p>"))
    );
}

#[test]
fn error_pages() {
    assert_eq!(
        render_error(400, "bad & worse", "<x>"),
        html(
            400,
            page(
                "bad &amp; worse",
                "<h1>bad &amp; worse</h1><p>&lt;x&gt;</p><p><a href=\"/\">home</a></p>"
            )
        )
    );
    assert_eq!(
        render_api_error(409, "{\"e\":1}"),
        render_error(
            409,
            "upstream returned an error",
            "HTTP 409 from tickets API: {\"e\":1}"
        )
    );
}
