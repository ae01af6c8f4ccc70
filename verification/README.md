# tickets-ui

A web user interface for a ticket tracker. It runs as one actor that serves
plain HTML pages and turns posted forms into calls of the tickets API.

| Request | Leads to |
|---|---|
| `GET /` | the list page |
| `GET /new` | the form for a new ticket |
| `GET /t/<id>` | the page of a ticket, with its forms |
| `GET /healthz` | `ok` |
| `GET /static/style.css` | the stylesheet |
| `POST /new` | `POST /v1/tickets` with `{title, body, reporter, assignee}` |
| `POST /t/<id>/comments` | `POST /v1/tickets/<id>/comment` with `{author, body}` |
| `POST /t/<id>/status` | `POST /v1/tickets/<id>/status` with `{status}` |

Calls of the tickets API carry a bearer token that browsers never see. A call
that succeeds sends the browser on to the list or to the ticket.

## Layout

- `src/` is the library, verified with Verus. It does no input or output: it
  says what the host is to do next, given how the last thing came out.
- `app/` is the actor: it parses the configuration, binds the listener and does
  what the library asks for.
- `tests/` runs the library on concrete requests, forms and replies.

Three facts about code outside the library are trusted: what `String::push`
and `core::str::from_utf8` of the standard library do, and how
`serde_json::to_string` writes a text.

## Configuration

The initial state is a JSON text:

```json
{
  "api_addr":    "127.0.0.1:8443",
  "api_token":   "<bearer the tickets API accepts>",
  "listen_addr": "127.0.0.1:8081"
}
```

`listen_addr` may be left out; the address above is its default.
