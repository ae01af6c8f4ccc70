use tickets_ui::api::{api_post, api_step, ApiStage, ApiStep};
use tickets_ui::io::{Action, Event};
use tickets_ui::reply::Reply;
use tickets_ui::state::UiState;

type Stage = ApiStage<String, Vec<u8>, Reply>;
type Outcome = Result<(u16, String), String>;

fn state() -> UiState {
    UiState {
        listener_id: "l".to_string(),
        api_addr: "127.0.0.1:8443".to_string(),
        api_token: "secret".to_string(),
    }
}

fn connecting() -> Stage {
    ApiStage::Connecting { address: "addr".to_string(), request: b"REQ".to_vec() }
}

fn receiving() -> Stage {
    ApiStage::Receiving { connection: "c".to_string(), reply: Reply::new() }
}

fn run(mut stage: Stage, events: Vec<Event<String, Vec<u8>>>) -> (Outcome, usize) {
    let mut used = 0;
    for event in events {
        used += 1;
        match api_step(stage, event) {
            ApiStep::Perform { stage: s, .. } => stage = s,
            ApiStep::Finished(outcome) => return (outcome, used),
            ApiStep::Failed(message) => return (Err(message), used),
        }
    }
    panic!("not finished");
}

#[test]
fn a_call_is_prepared() {
    let post = api_post(&state(), "/v1/tickets/3/status", "{\"status\":\"done\u{e9}\"}");
    assert_eq!(post.address, "127.0.0.1:8443");
    assert_eq!(
        String::from_utf8(post.request).unwrap(),
        "POST /v1/tickets/3/status HTTP/1.1\r\nHost: 127.0.0.1:8443\r\n\
         Authorization: Bearer secret\r\nConnection: close\r\n\
         Content-Type: application/json\r\nContent-Length: 19\r\n\r\n{\"status\":\"done\u{e9}\"}"
    );
}

#[test]
fn the_request_is_sent_once_connected() {
    match api_step(connecting(), Event::Connected(Ok("c".to_string()))) {
        ApiStep::Perform {
            stage: ApiStage::Sending { connection },
            action: Action::Send { connection: to, data },
        } => {
            assert_eq!(connection, "c");
            assert_eq!(to, "c");
            assert_eq!(data, b"REQ");
        }
        _ => panic!("not sent"),
    }
}

#[test]
fn the_reply_is_received_once_sent() {
    let stage = ApiStage::Sending { connection: "c".to_string() };
    match api_step(stage, Event::Sent(Ok(3))) {
        ApiStep::Perform {
            stage: ApiStage::Receiving { .. },
            action: Action::Receive { connection, max_bytes },
        } => {
            assert_eq!(connection, "c");
            assert_eq!(max_bytes, 65536);
        }
        _ => panic!("not received"),
    }
}

#[test]
fn failures_end_the_call() {
    let (outcome, _) = run(connecting(), vec![Event::Connected(Err("refused".to_string()))]);
    assert_eq!(outcome, Err("connect addr: refused".to_string()));
    let (outcome, _) = run(
        connecting(),
        vec![Event::Connected(Ok("c".to_string())), Event::Sent(Err("gone".to_string()))],
    );
    assert_eq!(outcome, Err("send: gone".to_string()));
}

#[test]
fn the_reply_survives_chunking() {
    let reply = b"HTTP/1.1 200 OK\r\nContent-Length: 7\r\n\r\n{\"a\":1}";
    for size in 1..=reply.len() {
        let mut events = vec![Event::Connected(Ok("c".to_string())), Event::Sent(Ok(3))];
        for chunk in reply.chunks(size) {
            events.push(Event::Received(Ok(chunk.to_vec())));
        }
        events.push(Event::Closed(Err("ignored".to_string())));
        let n = events.len();
        assert_eq!(run(connecting(), events), (Ok((200, "{\"a\":1}".to_string())), n));
    }
}

#[test]
fn an_open_ended_reply_is_read_until_it_ends() {
    let chunks = vec![
        Event::Received(Ok(b"HTTP/1.1 500 Oops\r\n\r\nfirst ".to_vec())),
        Event::Received(Ok(b"second".to_vec())),
    ];
    let mut events = chunks;
    events.push(Event::Received(Ok(Vec::new())));
    events.push(Event::Closed(Ok(())));
    assert_eq!(run(receiving(), events).0, Ok((500, "first second".to_string())));
    let events = vec![
        Event::Received(Ok(b"HTTP/1.1 200 OK\r\nContent-Length: 10\r\n\r\nshort".to_vec())),
        Event::Received(Err("reset".to_string())),
        Event::Closed(Ok(())),
    ];
    assert_eq!(run(receiving(), events).0, Ok((200, "short".to_string())));
}

#[test]
fn nothing_received_is_a_reply_without_status() {
    let events = vec![Event::Received(Ok(Vec::new())), Event::Closed(Ok(()))];
    assert_eq!(run(receiving(), events).0, Ok((0, "".to_string())));
}

#[test]
fn the_connection_is_closed_after_the_reply() {
    let bytes = b"HTTP/1.1 200 OK\r\nContent-Length: 0\r\n\r\n".to_vec();
    match api_step(receiving(), Event::Received(Ok(bytes))) {
        ApiStep::Perform { stage: ApiStage::Closing { .. }, action: Action::Close { connection } } => {
            assert_eq!(connection, "c")
        }
        _ => panic!("not closed"),
    }
}

#[test]
fn replies_that_cannot_be_read() {
    let events = vec![
        Event::Received(Ok(b"HTTP/1.1 200 OK\r\nContent-Length: 1\r\n\r\n\xff".to_vec())),
        Event::Closed(Ok(())),
    ];
    assert_eq!(run(receiving(), events).0, Err("non-utf8 response".to_string()));
    let bytes = "HTTP/1.1 200 OK\r\nContent-Length: 1\r\n\r\n\u{e9}".as_bytes().to_vec();
    let mut stage = receiving();
    if let ApiStep::Perform { stage: s, .. } = api_step(stage, Event::Received(Ok(bytes))) {
        stage = s;
    } else {
        panic!("not closing");
    }
    assert!(matches!(api_step(stage, Event::Closed(Ok(()))), ApiStep::Failed(_)));
}
