use tickets_ui::actor::{
    accept, handle_connection, init_config, init_listening, init_text, try_handle, Config, Stage,
    Startup, TryStage, TryStep,
};
use tickets_ui::api::api_post;
use tickets_ui::http::{canned_500, http_response, redirect_303};
use tickets_ui::io::{Action, Event};
use tickets_ui::state::UiState;
use tickets_ui::views::{not_found, render_api_error, render_error};

fn state(token: &str) -> UiState {
    UiState {
        listener_id: "l".to_string(),
        api_addr: "api:1".to_string(),
        api_token: token.to_string(),
    }
}

/// Serves a connection with the given outcomes and notes what is asked for.
fn serve(token: &str, events: Vec<Event<String, Vec<u8>>>) -> Vec<String> {
    let state = state(token);
    let mut asked = Vec::new();
    let (mut stage, mut action) = accept("b");
    let mut events = events.into_iter();
    loop {
        let (note, stop) = match &action {
            Action::Receive { connection, max_bytes } => {
                (format!("receive {} {}", connection, max_bytes), false)
            }
            Action::Connect { address } => (format!("connect {}", address), false),
            Action::Send { connection, data } => {
                (format!("send {} {}", connection, String::from_utf8_lossy(data)), false)
            }
            Action::Close { connection } => (format!("close {}", connection), false),
            Action::Log { message } => (format!("log {}", message), false),
            Action::Stop => ("stop".to_string(), true),
        };
        asked.push(note);
        if stop {
            assert!(matches!(stage, Stage::Done));
            assert!(events.next().is_none());
            return asked;
        }
        (stage, action) =
            handle_connection(&state, "css", "b", stage, events.next().expect("an outcome"));
    }
}

fn text(bytes: Vec<u8>) -> String {
    String::from_utf8(bytes).unwrap()
}

fn err<T>(message: &str) -> Result<T, String> {
    Err(message.to_string())
}

const POST: &str = "POST /t/4/status HTTP/1.1\r\n\r\nstatus=done";

fn posted(reply: Vec<Event<String, Vec<u8>>>) -> Vec<Event<String, Vec<u8>>> {
    let mut events = vec![
        Event::Received(Ok(POST.as_bytes().to_vec())),
        Event::Connected(Ok("a".to_string())),
        Event::Sent(Ok(1)),
    ];
    events.extend(reply);
    events
}

fn request(token: &str) -> String {
    text(api_post(&state(token), "/v1/tickets/4/status", "{\"status\":\"done\"}").request)
}

#[test]
fn a_request_is_answered() {
    let asked = serve(
        "t",
        vec![
            Event::Received(Ok(b"GET /healthz HTTP/1.1\r\n\r\n".to_vec())),
            Event::Sent(Ok(9)),
            Event::Closed(Ok(())),
        ],
    );
    assert_eq!(
        asked,
        vec![
            "receive b 65536".to_string(),
            format!("send b {}", text(http_response(200, "text/plain", b"ok\n".to_vec()))),
            "close b".to_string(),
            "stop".to_string(),
        ]
    );
}

#[test]
fn a_form_is_answered_by_the_reply() {
    let asked = serve(
        "t",
        posted(vec![
            Event::Received(Ok(b"HTTP/1.1 200 OK\r\nContent-Le".to_vec())),
            Event::Received(Ok(b"ngth: 2\r\n\r\n{}".to_vec())),
            Event::Closed(err("whatever")),
            Event::Sent(Ok(9)),
            Event::Closed(Ok(())),
        ]),
    );
    assert_eq!(
        asked,
        vec![
            "receive b 65536".to_string(),
            "connect api:1".to_string(),
            format!("send a {}", request("t")),
            "receive a 65536".to_string(),
            "receive a 65536".to_string(),
            "close a".to_string(),
            format!("send b {}", text(redirect_303("/t/4"))),
            "close b".to_string(),
            "stop".to_string(),
        ]
    );
}

#[test]
fn a_refusal_is_passed_on() {
    let asked = serve(
        "t",
        posted(vec![
            Event::Received(Ok(b"HTTP/1.1 404 Not Found\r\nContent-Length: 2\r\n\r\nno".to_vec())),
            Event::Closed(Ok(())),
            Event::Sent(Ok(9)),
            Event::Closed(Ok(())),
        ]),
    );
    assert_eq!(asked[5], format!("send b {}", text(render_api_error(404, "no"))));
}

#[test]
fn an_api_that_is_down_is_reported() {
    let asked = serve(
        "t",
        vec![
            Event::Received(Ok(POST.as_bytes().to_vec())),
            Event::Connected(err("refused")),
            Event::Sent(Ok(9)),
            Event::Closed(Ok(())),
        ],
    );
    assert_eq!(
        asked[2],
        format!(
            "send b {}",
            text(render_error(502, "upstream unavailable", "connect api:1: refused"))
        )
    );
}

fn apology(message: &str) -> Vec<String> {
    vec![
        format!("log [tickets-ui] handle-connection failed (conn=b): {}", message),
        format!("send b {}", text(canned_500())),
        "close b".to_string(),
        "stop".to_string(),
    ]
}

#[test]
fn failures_are_logged_and_answered() {
    let received = Event::Received(Ok(b"GET / HTTP/1.1\r\n\r\n".to_vec()));
    let asked = serve(
        "t",
        vec![
            Event::Received(err("gone")),
            Event::Logged,
            Event::Sent(err("gone too")),
            Event::Closed(err("gone again")),
        ],
    );
    assert_eq!(asked[1..], apology("receive: gone")[..]);
    let asked = serve(
        "t",
        vec![received, Event::Sent(err("x")), Event::Logged, Event::Sent(Ok(1)), Event::Closed(Ok(()))],
    );
    assert_eq!(asked[2..], apology("send: x")[..]);
    let asked = serve(
        "t",
        vec![
            Event::Received(Ok(b"GET / HTTP/1.1\r\n\r\n".to_vec())),
            Event::Sent(Ok(1)),
            Event::Closed(err("y")),
            Event::Logged,
            Event::Sent(Ok(1)),
            Event::Closed(Ok(())),
        ],
    );
    assert_eq!(asked[3..], apology("close: y")[..]);
}

#[test]
fn a_path_without_an_id_is_not_found() {
    for path in ["/t/comments", "/t/status"] {
        let asked = serve(
            "t",
            vec![
                Event::Received(Ok(format!("POST {} HTTP/1.1\r\n\r\na=b", path).into_bytes())),
                Event::Sent(Ok(1)),
                Event::Closed(Ok(())),
            ],
        );
        assert_eq!(
            asked[1..],
            [format!("send b {}", text(not_found())), "close b".to_string(), "stop".to_string()]
        );
    }
}

#[test]
fn a_reply_cut_inside_a_character_does_not_stop_the_actor() {
    let reply = "HTTP/1.1 200 OK\r\nContent-Length: 1\r\n\r\n\u{e9}".as_bytes().to_vec();
    let asked = serve(
        "t",
        posted(vec![
            Event::Received(Ok(reply)),
            Event::Closed(Ok(())),
            Event::Logged,
            Event::Sent(Ok(1)),
            Event::Closed(Ok(())),
        ]),
    );
    assert_eq!(asked[5..], apology("api reply: body ends inside a character")[..]);
}

#[test]
fn the_browser_never_sees_the_token() {
    let events = || {
        posted(vec![
            Event::Received(Ok(b"HTTP/1.1 500 Oops\r\nContent-Length: 1\r\n\r\nx".to_vec())),
            Event::Closed(Ok(())),
            Event::Sent(Ok(9)),
            Event::Closed(Ok(())),
        ])
    };
    let one = serve("TOKEN-ONE", events());
    let two = serve("TOKEN-TWO", events());
    assert_eq!(one.len(), two.len());
    for (a, b) in one.iter().zip(two.iter()) {
        if a.starts_with("send a ") {
            assert_eq!(*a, format!("send a {}", request("TOKEN-ONE")));
            assert_eq!(*b, format!("send a {}", request("TOKEN-TWO")));
        } else {
            assert_eq!(a, b);
        }
    }
}

#[test]
fn one_step_of_an_answer() {
    let step = try_handle(
        &state("t"),
        "css text",
        "b",
        TryStage::Receiving,
        Event::Received(Ok(b"GET /static/style.css HTTP/1.1\r\n\r\n".to_vec())),
    );
    match step {
        TryStep::Perform {
            stage: TryStage::Sending,
            action: Action::Send { connection, data },
        } => {
            assert_eq!(connection, "b");
            assert_eq!(
                data,
                http_response(200, "text/css; charset=utf-8", b"css text".to_vec())
            );
        }
        _ => panic!("no answer"),
    }
    assert!(matches!(
        try_handle(&state("t"), "", "b", TryStage::Closing, Event::Closed(Ok(()))),
        TryStep::Finished(Ok(()))
    ));
}

#[test]
fn the_initial_state_is_a_text() {
    let message = "tickets-ui needs initial_state as a non-empty JSON string \
                   ({api_addr, api_token, listen_addr?})";
    assert_eq!(init_text(None), err(message));
    assert_eq!(init_text(Some(String::new())), err(message));
    assert_eq!(init_text(Some("{}".to_string())), Ok("{}".to_string()));
}

fn config(addr: &str, token: &str, listen: Option<&str>) -> Result<Config, String> {
    Ok(Config {
        api_addr: addr.to_string(),
        api_token: token.to_string(),
        listen_addr: listen.map(|s| s.to_string()),
    })
}

fn message<T>(r: Result<T, String>) -> String {
    match r {
        Ok(_) => panic!("accepted"),
        Err(e) => e,
    }
}

#[test]
fn the_configuration_is_checked() {
    assert_eq!(
        message(init_config(err("eof"))),
        "initial_state is not valid JSON Config: eof"
    );
    assert_eq!(message(init_config(config("", "", None))), "api_addr must be non-empty");
    assert_eq!(message(init_config(config("a", "", None))), "api_token must be non-empty");
    match init_config(config("a", "t", None)) {
        Ok(startup) => {
            assert_eq!(startup.listen_addr, "127.0.0.1:8081");
            assert_eq!(startup.api_addr, "a");
            assert_eq!(startup.api_token, "t");
        }
        Err(e) => panic!("{}", e),
    }
    match init_config(config("a", "t", Some("0.0.0.0:1"))) {
        Ok(startup) => assert_eq!(startup.listen_addr, "0.0.0.0:1"),
        Err(e) => panic!("{}", e),
    }
}

#[test]
fn the_listener_completes_the_state() {
    let startup = || Startup {
        listen_addr: "h:1".to_string(),
        api_addr: "a".to_string(),
        api_token: "t".to_string(),
    };
    match init_listening(startup(), Ok("id".to_string())) {
        Ok(state) => {
            let state = state.clone();
            assert_eq!(state.listener_id, "id");
            assert_eq!(state.api_addr, "a");
            assert_eq!(state.api_token, "t");
        }
        Err(e) => panic!("{}", e),
    }
    assert_eq!(
        message(init_listening(startup(), err("in use"))),
        "listen on h:1 failed: in use"
    );
}
