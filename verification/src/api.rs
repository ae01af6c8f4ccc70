//! Calls of the tickets API: one HTTP/1.1 POST over a connection of its own,
//! in plain text, with bearer authentication.
//!
//! The host does the input and output. `api_post` prepares a call, and
//! `api_step` says after each outcome what is to be done next.
use crate::io::Action;
use crate::io::Event;
use crate::io::EventView;
use crate::reply::announced_length;
use crate::reply::has_blank_line;
use crate::reply::header_end;
use crate::reply::header_terminator;
use crate::reply::header_text;
use crate::reply::is_complete;
use crate::reply::lemma_announcing_line;
use crate::reply::lemma_encode_append;
use crate::reply::lemma_head_and_body;
use crate::reply::lemma_no_blank_line_after;
use crate::reply::lemma_no_blank_line_before;
use crate::reply::lemma_no_blank_line_between;
use crate::reply::lemma_one_line;
use crate::reply::lemma_split_at_line_end;
use crate::reply::line_content_length;
use crate::reply::line_end;
use crate::reply::outcome_view;
use crate::reply::reply_of;
use crate::reply::splits_character;
use crate::reply::Reply;
use crate::state::UiState;
use crate::text::decimal;
use crate::text::is_digit;
use crate::text::lemma_decimal_round_trip;
use crate::text::lemma_find;
use crate::text::lemma_find_append;
use crate::text::split;
use crate::text::write_decimal;
use vstd::prelude::*;
use vstd::utf8::encode_utf8;

verus! {

/// How many bytes are received at a time.
pub const MAX_RECEIVE: u32 = 65536;

/// The text of a request to the tickets API.
pub open spec fn request_text(
    address: Seq<char>,
    token: Seq<char>,
    path: Seq<char>,
    body: Seq<char>,
) -> Seq<char> {
    "POST "@ + path + " HTTP/1.1\r\nHost: "@ + address + "\r\nAuthorization: Bearer "@ + token
        + "\r\nConnection: close\r\nContent-Type: application/json\r\nContent-Length: "@ + decimal(
        encode_utf8(body).len(),
    ) + "\r\n\r\n"@ + body
}

/// The bytes of a request to the tickets API of the given state.
pub open spec fn request_bytes(state: UiState, path: Seq<char>, body: Seq<char>) -> Seq<u8> {
    encode_utf8(request_text(state.api_addr@, state.api_token@, path, body))
}

/// A call that is ready to be made.
pub struct ApiPost {
    /// Where to connect to.
    pub address: String,
    /// What to send.
    pub request: Vec<u8>,
}

/// Prepares a call of the tickets API.
pub fn api_post(state: &UiState, path: &str, body: &str) -> (r: ApiPost)
    ensures
        r.address@ == state.api_addr@,
        r.request@ == request_bytes(*state, path@, body@),
{
    let length = body.as_bytes().len();
    let mut request = "POST ".to_owned();
    request.append(path);
    request.append(" HTTP/1.1\r\nHost: ");
    request.append(state.api_addr.as_str());
    request.append("\r\nAuthorization: Bearer ");
    request.append(state.api_token.as_str());
    request.append(
        "\r\nConnection: close\r\nContent-Type: application/json\r\nContent-Length: ",
    );
    request.append(write_decimal(length as u64).as_str());
    request.append("\r\n\r\n");
    request.append(body);
    ApiPost { address: state.api_addr.clone(), request: request.as_str().as_bytes_vec() }
}

/// How far a call has come: what the host is doing for it.
pub enum ApiStage<T, B, R> {
    /// Connecting; the request is to be sent next.
    Connecting { address: T, request: B },
    /// Sending the request.
    Sending { connection: T },
    /// Receiving the reply, of which this much has arrived.
    Receiving { connection: T, reply: R },
    /// Closing the connection, with the reply received.
    Closing { reply: R },
}

/// What comes after an outcome.
pub enum ApiStep<T, B, R> {
    /// The host is to do something more.
    Perform { stage: ApiStage<T, B, R>, action: Action<T, B> },
    /// The call is over: status and body of the reply, or why there is none.
    Finished(Result<(u16, T), T>),
    /// The reply is of no use: its announced length ends inside a character.
    Failed(T),
}

/// A stage in specifications.
pub type ApiStageView = ApiStage<Seq<char>, Seq<u8>, Seq<u8>>;

/// A step in specifications.
pub type ApiStepView = ApiStep<Seq<char>, Seq<u8>, Seq<u8>>;

impl View for ApiStage<String, Vec<u8>, Reply> {
    type V = ApiStageView;

    open spec fn view(&self) -> ApiStageView {
        match *self {
            ApiStage::Connecting { address, request } => ApiStage::Connecting {
                address: address@,
                request: request@,
            },
            ApiStage::Sending { connection } => ApiStage::Sending { connection: connection@ },
            ApiStage::Receiving { connection, reply } => ApiStage::Receiving {
                connection: connection@,
                reply: reply@,
            },
            ApiStage::Closing { reply } => ApiStage::Closing { reply: reply@ },
        }
    }
}

impl ApiStage<String, Vec<u8>, Reply> {
    /// The reply, where there is one, is well formed.
    pub open spec fn wf(&self) -> bool {
        match *self {
            ApiStage::Receiving { reply, .. } => reply.wf(),
            ApiStage::Closing { reply } => reply.wf(),
            _ => true,
        }
    }
}

impl View for ApiStep<String, Vec<u8>, Reply> {
    type V = ApiStepView;

    open spec fn view(&self) -> ApiStepView {
        match *self {
            ApiStep::Perform { stage, action } => ApiStep::Perform {
                stage: stage@,
                action: action@,
            },
            ApiStep::Finished(outcome) => ApiStep::Finished(outcome_view(outcome)),
            ApiStep::Failed(message) => ApiStep::Failed(message@),
        }
    }
}

/// Whether the event is what the stage waits for.
pub open spec fn api_awaits(stage: ApiStageView, event: EventView) -> bool {
    match stage {
        ApiStage::Connecting { .. } => event is Connected,
        ApiStage::Sending { .. } => event is Sent,
        ApiStage::Receiving { .. } => event is Received,
        ApiStage::Closing { .. } => event is Closed,
    }
}

/// Why a reply whose announced length ends inside a character is of no use.
pub const SPLIT_CHARACTER: &'static str = "api reply: body ends inside a character";

/// Receive more of the reply.
pub open spec fn receive_more(connection: Seq<char>, reply: Seq<u8>) -> ApiStepView {
    ApiStep::Perform {
        stage: ApiStage::Receiving { connection, reply },
        action: Action::Receive { connection, max_bytes: MAX_RECEIVE },
    }
}

/// The reply has been received: close the connection.
pub open spec fn close_with(connection: Seq<char>, reply: Seq<u8>) -> ApiStepView {
    ApiStep::Perform {
        stage: ApiStage::Closing { reply },
        action: Action::Close { connection },
    }
}

/// What comes after an event that the stage waits for.
///
/// A connection that cannot be opened, or a request that cannot be sent, ends
/// the call. The reply is received until it is complete, until the API closes
/// or until receiving fails. How the closing comes out does not matter.
pub open spec fn api_next(stage: ApiStageView, event: EventView) -> ApiStepView {
    match (stage, event) {
        (ApiStage::Connecting { request, .. }, Event::Connected(Ok(connection))) => {
            ApiStep::Perform {
                stage: ApiStage::Sending { connection },
                action: Action::Send { connection, data: request },
            }
        },
        (ApiStage::Connecting { address, .. }, Event::Connected(Err(e))) => {
            ApiStep::Finished(Err("connect "@ + address + ": "@ + e))
        },
        (ApiStage::Sending { connection }, Event::Sent(Ok(_))) => {
            receive_more(connection, seq![])
        },
        (ApiStage::Sending { .. }, Event::Sent(Err(e))) => {
            ApiStep::Finished(Err("send: "@ + e))
        },
        (ApiStage::Receiving { connection, reply }, Event::Received(Ok(chunk))) => {
            if chunk.len() == 0 || is_complete(reply + chunk) {
                close_with(connection, reply + chunk)
            } else {
                receive_more(connection, reply + chunk)
            }
        },
        (ApiStage::Receiving { connection, reply }, _) => close_with(connection, reply),
        (ApiStage::Closing { reply }, _) => {
            if splits_character(reply) {
                ApiStep::Failed(SPLIT_CHARACTER@)
            } else {
                ApiStep::Finished(reply_of(reply))
            }
        },
        _ => ApiStep::Failed(seq![]),
    }
}

/// Goes on with a call after the outcome of what the host was asked to do.
pub fn api_step(stage: ApiStage<String, Vec<u8>, Reply>, event: Event<String, Vec<u8>>) -> (r:
    ApiStep<String, Vec<u8>, Reply>)
    requires
        stage.wf(),
        api_awaits(stage@, event@),
    ensures
        r@ == api_next(stage@, event@),
        r matches ApiStep::Perform { stage: next, .. } ==> next.wf(),
{
    match (stage, event) {
        (ApiStage::Connecting { request, .. }, Event::Connected(Ok(connection))) => {
            ApiStep::Perform {
                stage: ApiStage::Sending { connection: connection.clone() },
                action: Action::Send { connection, data: request },
            }
        },
        (ApiStage::Connecting { address, .. }, Event::Connected(Err(e))) => {
            let mut message = "connect ".to_owned();
            message.append(address.as_str());
            message.append(": ");
            message.append(e.as_str());
            ApiStep::Finished(Err(message))
        },
        (ApiStage::Sending { connection }, Event::Sent(Ok(_))) => ApiStep::Perform {
            stage: ApiStage::Receiving { connection: connection.clone(), reply: Reply::new() },
            action: Action::Receive { connection, max_bytes: MAX_RECEIVE },
        },
        (ApiStage::Sending { .. }, Event::Sent(Err(e))) => {
            let mut message = "send: ".to_owned();
            message.append(e.as_str());
            ApiStep::Finished(Err(message))
        },
        (ApiStage::Receiving { connection, reply }, Event::Received(Ok(chunk))) => {
            let ghost before = reply@;
            let mut reply = reply;
            if chunk.len() == 0 {
                assert(before + chunk@ =~= before);
                ApiStep::Perform {
                    stage: ApiStage::Closing { reply },
                    action: Action::Close { connection },
                }
            } else {
                reply.extend(chunk);
                if reply.complete() {
                    ApiStep::Perform {
                        stage: ApiStage::Closing { reply },
                        action: Action::Close { connection },
                    }
                } else {
                    ApiStep::Perform {
                        stage: ApiStage::Receiving { connection: connection.clone(), reply },
                        action: Action::Receive { connection, max_bytes: MAX_RECEIVE },
                    }
                }
            }
        },
        (ApiStage::Receiving { connection, reply }, Event::Received(Err(_))) => ApiStep::Perform {
            stage: ApiStage::Closing { reply },
            action: Action::Close { connection },
        },
        (ApiStage::Closing { reply }, Event::Closed(_)) => {
            if reply.ends_inside_character() {
                ApiStep::Failed(SPLIT_CHARACTER.to_owned())
            } else {
                ApiStep::Finished(reply.read())
            }
        },
        _ => vstd::pervasive::unreached(),
    }
}

// ---------------------------------------------------------------------------
// Laws
// ---------------------------------------------------------------------------
/// Where a call is after a run of events, each of them the outcome of what the
/// host was asked to do before; events after the end of the call do not count.
pub open spec fn api_run(step: ApiStepView, events: Seq<EventView>) -> ApiStepView
    decreases events.len(),
{
    if events.len() == 0 {
        step
    } else {
        match step {
            ApiStep::Perform { stage, .. } => api_run(
                api_next(stage, events[0]),
                events.drop_first(),
            ),
            _ => step,
        }
    }
}

/// The pieces in which a reply arrives, as events.
pub open spec fn arrivals(chunks: Seq<Seq<u8>>) -> Seq<EventView> {
    chunks.map_values(|chunk: Seq<u8>| Event::Received(Ok(chunk)))
}

/// The reply is exactly as long as its header section announces.
pub open spec fn is_exact(reply: Seq<u8>) -> bool {
    match header_end(reply) {
        Some(i) => reply.len() == i + 4 + announced_length(reply.take(i)),
        None => false,
    }
}

/// The reply announces no length, or one that it never reaches.
pub open spec fn is_open_ended(reply: Seq<u8>) -> bool {
    match header_end(reply) {
        Some(i) => reply.len() < i + 4 + announced_length(reply.take(i)),
        None => true,
    }
}

/// The beginning of a reply is complete only if the length that the reply
/// announces has been reached.
proof fn lemma_complete_beginning(reply: Seq<u8>, beginning: Seq<u8>, more: Seq<u8>)
    requires
        reply == beginning + more,
    ensures
        is_complete(beginning) ==> (header_end(reply) matches Some(i) && beginning.len() >= i + 4
            + announced_length(reply.take(i))),
{
    lemma_find(beginning, header_terminator());
    lemma_find_append(beginning, more, header_terminator());
    if let Some(i) = header_end(beginning) {
        assert(reply.take(i) =~= beginning.take(i));
    }
}

/// While a reply that announces its exact length is arriving.
proof fn lemma_exact_arrival(
    connection: Seq<char>,
    reply: Seq<u8>,
    arrived: Seq<u8>,
    chunks: Seq<Seq<u8>>,
)
    requires
        is_exact(reply),
        chunks.len() > 0,
        forall|k: int| 0 <= k < chunks.len() ==> (#[trigger] chunks[k]).len() > 0,
        arrived + chunks.flatten() == reply,
    ensures
        api_run(receive_more(connection, arrived), arrivals(chunks)) == close_with(
            connection,
            reply,
        ),
    decreases chunks.len(),
{
    reveal_with_fuel(api_run, 2);
    let events = arrivals(chunks);
    let rest = chunks.drop_first();
    let now = arrived + chunks[0];
    assert(events[0] == EventView::Received(Ok(chunks[0])));
    assert(events.drop_first() =~= arrivals(rest));
    assert(chunks.flatten() == chunks[0] + rest.flatten());
    assert(reply =~= now + rest.flatten());
    lemma_complete_beginning(reply, now, rest.flatten());
    if rest.len() == 0 {
        assert(rest.flatten() =~= seq![]);
        assert(now =~= reply);
        assert(arrivals(rest).len() == 0);
    } else {
        assert(rest.flatten() == rest[0] + rest.drop_first().flatten());
        assert(rest[0] == chunks[1]);
        assert(!is_complete(now));
        lemma_exact_arrival(connection, reply, now, rest);
    }
}

/// While a reply that does not say where it ends is arriving.
proof fn lemma_open_ended_arrival(
    connection: Seq<char>,
    reply: Seq<u8>,
    arrived: Seq<u8>,
    chunks: Seq<Seq<u8>>,
    last: EventView,
)
    requires
        is_open_ended(reply),
        forall|k: int| 0 <= k < chunks.len() ==> (#[trigger] chunks[k]).len() > 0,
        arrived + chunks.flatten() == reply,
        last matches Event::Received(r) && (r matches Ok(bytes) ==> bytes.len() == 0),
    ensures
        api_run(receive_more(connection, arrived), arrivals(chunks).push(last)) == close_with(
            connection,
            reply,
        ),
    decreases chunks.len(),
{
    reveal_with_fuel(api_run, 2);
    let events = arrivals(chunks).push(last);
    if chunks.len() == 0 {
        assert(chunks.flatten() =~= seq![]);
        assert(arrived =~= reply);
        assert(events.drop_first().len() == 0);
        if let Event::Received(Ok(bytes)) = last {
            assert(arrived + bytes =~= reply);
        }
    } else {
        let rest = chunks.drop_first();
        let now = arrived + chunks[0];
        assert(events[0] == EventView::Received(Ok(chunks[0])));
        assert(events.drop_first() =~= arrivals(rest).push(last));
        assert(chunks.flatten() == chunks[0] + rest.flatten());
        assert(reply =~= now + rest.flatten());
        lemma_complete_beginning(reply, now, rest.flatten());
        lemma_open_ended_arrival(connection, reply, now, rest, last);
    }
}

/// A reply that announces its exact length is received whole, and no more is
/// waited for, however the network cuts it into pieces.
pub proof fn law_reply_survives_chunking(
    connection: Seq<char>,
    reply: Seq<u8>,
    chunks: Seq<Seq<u8>>,
)
    requires
        is_exact(reply),
        chunks.flatten() == reply,
        forall|k: int| 0 <= k < chunks.len() ==> (#[trigger] chunks[k]).len() > 0,
    ensures
        api_run(receive_more(connection, seq![]), arrivals(chunks)) == close_with(
            connection,
            reply,
        ),
{
    lemma_find(reply, header_terminator());
    if chunks.len() == 0 {
        assert(chunks.flatten() =~= seq![]);
    }
    assert(Seq::<u8>::empty() + chunks.flatten() =~= reply);
    lemma_exact_arrival(connection, reply, seq![], chunks);
}

/// A reply that does not say where it ends, or promises more than it brings, is
/// received until the API closes the connection or receiving fails.
pub proof fn law_open_ended_reply_is_read_to_the_end(
    connection: Seq<char>,
    reply: Seq<u8>,
    chunks: Seq<Seq<u8>>,
    last: EventView,
)
    requires
        is_open_ended(reply),
        chunks.flatten() == reply,
        forall|k: int| 0 <= k < chunks.len() ==> (#[trigger] chunks[k]).len() > 0,
        last matches Event::Received(r) && (r matches Ok(bytes) ==> bytes.len() == 0),
    ensures
        api_run(receive_more(connection, seq![]), arrivals(chunks).push(last)) == close_with(
            connection,
            reply,
        ),
{
    assert(Seq::<u8>::empty() + chunks.flatten() =~= reply);
    lemma_open_ended_arrival(connection, reply, seq![], chunks, last);
}

/// Runs one after the other make one run.
pub proof fn lemma_api_run_append(step: ApiStepView, events: Seq<EventView>, more: Seq<EventView>)
    ensures
        api_run(step, events + more) == api_run(api_run(step, events), more),
    decreases events.len(),
{
    if events.len() == 0 {
        assert(events + more =~= more);
    } else {
        assert((events + more).drop_first() =~= events.drop_first() + more);
        if let ApiStep::Perform { stage, .. } = step {
            lemma_api_run_append(api_next(stage, events[0]), events.drop_first(), more);
        }
    }
}

/// A call on which every step succeeds sends the request once, over the
/// connection that was opened for it, and comes out as what the API replied,
/// however the reply was cut into pieces and whether or not closing succeeds.
pub proof fn law_call_returns_the_reply(
    address: Seq<char>,
    request: Seq<u8>,
    connection: Seq<char>,
    sent: u64,
    reply: Seq<u8>,
    chunks: Seq<Seq<u8>>,
    closed: Result<(), Seq<char>>,
)
    requires
        is_exact(reply),
        !splits_character(reply),
        chunks.flatten() == reply,
        forall|k: int| 0 <= k < chunks.len() ==> (#[trigger] chunks[k]).len() > 0,
    ensures
        api_next(
            ApiStage::Connecting { address, request },
            Event::Connected(Ok(connection)),
        ) == (ApiStepView::Perform {
            stage: ApiStage::Sending { connection },
            action: Action::Send { connection, data: request },
        }),
        api_run(
            ApiStep::Perform {
                stage: ApiStage::Connecting { address, request },
                action: Action::Connect { address },
            },
            seq![
                Event::Connected(Ok(connection)),
                Event::Sent(Ok(sent)),
            ] + arrivals(chunks) + seq![Event::Closed(closed)],
        ) == ApiStepView::Finished(reply_of(reply)),
{
    let start = ApiStepView::Perform {
        stage: ApiStage::Connecting { address, request },
        action: Action::Connect { address },
    };
    let opening = seq![
        EventView::Connected(Ok(connection)),
        Event::Sent(Ok(sent)),
    ];
    let closing = seq![EventView::Closed(closed)];
    lemma_api_run_append(start, opening + arrivals(chunks), closing);
    lemma_api_run_append(start, opening, arrivals(chunks));
    assert(opening.drop_first() =~= seq![EventView::Sent(Ok(sent))]);
    assert(opening.drop_first().drop_first() =~= seq![]);
    reveal_with_fuel(api_run, 3);
    assert(api_run(start, opening) == receive_more(connection, seq![]));
    law_reply_survives_chunking(connection, reply, chunks);
    assert(closing.drop_first() =~= seq![]);
}

/// The header section of a request, and the lines it is made of.
proof fn lemma_request_head(
    address: Seq<char>,
    token: Seq<char>,
    path: Seq<char>,
    body: Seq<char>,
) -> (r: (Seq<char>, Seq<char>, Seq<char>, Seq<char>))
    ensures
        r.0 == "POST "@ + path + " HTTP/1.1"@,
        r.1 == "Host: "@ + address,
        r.2 == "Authorization: Bearer "@ + token,
        r.3 == "Content-Length: "@ + decimal(encode_utf8(body).len()),
        request_text(address, token, path, body) == r.0 + line_end() + (r.1 + line_end() + (r.2
            + line_end() + ("Connection: close"@ + line_end() + ("Content-Type: application/json"@
            + line_end() + r.3)))) + line_end() + line_end() + body,
{
    reveal_strlit(" HTTP/1.1\r\nHost: ");
    reveal_strlit(" HTTP/1.1");
    reveal_strlit("Host: ");
    reveal_strlit("\r\nAuthorization: Bearer ");
    reveal_strlit("Authorization: Bearer ");
    reveal_strlit("\r\nConnection: close\r\nContent-Type: application/json\r\nContent-Length: ");
    reveal_strlit("Connection: close");
    reveal_strlit("Content-Type: application/json");
    reveal_strlit("Content-Length: ");
    reveal_strlit("\r\n\r\n");
    let end = line_end();
    assert(" HTTP/1.1\r\nHost: "@ =~= " HTTP/1.1"@ + end + "Host: "@);
    assert("\r\nAuthorization: Bearer "@ =~= end + "Authorization: Bearer "@);
    assert("\r\nConnection: close\r\nContent-Type: application/json\r\nContent-Length: "@ =~= end
        + "Connection: close"@ + end + "Content-Type: application/json"@ + end
        + "Content-Length: "@);
    assert("\r\n\r\n"@ =~= end + end);
    let digits = decimal(encode_utf8(body).len());
    let a = "POST "@ + path + " HTTP/1.1"@;
    let b = "Host: "@ + address;
    let c = "Authorization: Bearer "@ + token;
    let f = "Content-Length: "@ + digits;
    assert(request_text(address, token, path, body) =~= a + end + (b + end + (c + end + (
    "Connection: close"@ + end + ("Content-Type: application/json"@ + end + f)))) + end + end
        + body);
    (a, b, c, f)
}

/// The lines of a request that do not depend on the state or the path.
proof fn lemma_request_tail(length: nat)
    ensures
        ({
            let last = "Content-Length: "@ + decimal(length);
            let tail = "Connection: close"@ + line_end() + ("Content-Type: application/json"@
                + line_end() + last);
            &&& !has_blank_line(tail + line_end() + seq!['\r'])
            &&& tail[0] == 'C'
            &&& split(tail, line_end()) == seq![
                "Connection: close"@,
                "Content-Type: application/json"@,
                last,
            ]
            &&& length <= usize::MAX ==> line_content_length(last) == Some(length)
        }),
{
    reveal_strlit("Connection: close");
    reveal_strlit("Content-Type: application/json");
    reveal_strlit("Content-Length: ");
    let end = line_end();
    let d = decimal(length);
    let last = "Content-Length: "@ + d;
    let more = "Content-Type: application/json"@ + end + last;
    let tail = "Connection: close"@ + end + more;
    lemma_decimal_round_trip(length, length);
    assert forall|i: int| 0 <= i < last.len() implies last[i] != '\n' && last[i] != '\r' by {
        if i >= 16 {
            assert(last[i] == d[i - 16]);
            assert(is_digit(d[i - 16]));
        }
    }
    lemma_one_line(last);
    lemma_one_line("Connection: close"@);
    lemma_one_line("Content-Type: application/json"@);
    // lines
    lemma_split_at_line_end("Connection: close"@, more);
    lemma_split_at_line_end("Content-Type: application/json"@, last);
    assert(split(tail, end) =~= seq![
        "Connection: close"@,
        "Content-Type: application/json"@,
        last,
    ]);
    // no blank line
    assert(!has_blank_line(seq!['\r']));
    let e = end + seq!['\r'];
    assert(!has_blank_line(e));
    lemma_no_blank_line_after(last, e);
    assert(last + e =~= last + end + seq!['\r']);
    lemma_no_blank_line_between("Content-Type: application/json"@, last + e);
    lemma_no_blank_line_between(
        "Connection: close"@,
        "Content-Type: application/json"@ + end + (last + e),
    );
    assert("Connection: close"@ + end + ("Content-Type: application/json"@ + end + (last + e))
        =~= tail + end + seq!['\r']);
    // the length
    if length <= usize::MAX {
        lemma_announcing_line(length);
    }
}

/// A call is read as it was meant by the rules by which replies are read: after
/// the first blank line come the bytes of the body and nothing else, and the
/// header section announces exactly as many. The only addresses, tokens and
/// paths left out are those that put a blank line into the header section.
pub proof fn law_request_is_read_back(state: UiState, path: Seq<char>, body: Seq<char>)
    requires
        !has_blank_line(path),
        !has_blank_line(state.api_addr@ + line_end()),
        !has_blank_line(state.api_token@ + line_end()),
        encode_utf8(body).len() <= usize::MAX,
    ensures
        ({
            let bytes = request_bytes(state, path, body);
            &&& header_end(bytes) matches Some(i)
            &&& bytes.skip(i + 4) == encode_utf8(body)
            &&& announced_length(bytes.take(i)) == bytes.len() - (i + 4)
            &&& is_exact(bytes)
        }),
{
    let end = line_end();
    let (a, b, c, f) = lemma_request_head(state.api_addr@, state.api_token@, path, body);
    let length = encode_utf8(body).len();
    let tail = "Connection: close"@ + end + ("Content-Type: application/json"@ + end + f);
    lemma_request_tail(length);
    reveal_strlit("POST ");
    reveal_strlit(" HTTP/1.1");
    reveal_strlit("Host: ");
    reveal_strlit("Authorization: Bearer ");
    let head = a + end + (b + end + (c + end + tail));
    // no blank line
    lemma_no_blank_line_after("Authorization: Bearer "@, state.api_token@ + end);
    assert("Authorization: Bearer "@ + (state.api_token@ + end) =~= c + end);
    lemma_no_blank_line_between(c, tail + end + seq!['\r']);
    lemma_no_blank_line_after("Host: "@, state.api_addr@ + end);
    assert("Host: "@ + (state.api_addr@ + end) =~= b + end);
    lemma_no_blank_line_between(b, c + end + (tail + end + seq!['\r']));
    lemma_no_blank_line_before(path, " HTTP/1.1"@ + end);
    lemma_no_blank_line_after("POST "@, path + (" HTTP/1.1"@ + end));
    assert("POST "@ + (path + (" HTTP/1.1"@ + end)) =~= a + end);
    lemma_no_blank_line_between(a, b + end + (c + end + (tail + end + seq!['\r'])));
    assert(a + end + (b + end + (c + end + (tail + end + seq!['\r']))) =~= head + end
        + seq!['\r']);
    lemma_head_and_body(head, encode_utf8(body));
    lemma_encode_append(head + end + end, body);
    // the last line announces the length
    lemma_split_at_line_end(a, b + end + (c + end + tail));
    lemma_split_at_line_end(b, c + end + tail);
    lemma_split_at_line_end(c, tail);
    assert(split(head, end).last() == f);
}

/// The header section of a call, line by line: it is a POST to the path, says
/// which host it is for, carries the token as a bearer token, and says that
/// JSON follows and how much of it. No line can be broken by what is put into
/// it, as long as that holds no line feed.
pub proof fn law_request_carries_the_token(state: UiState, path: Seq<char>, body: Seq<char>)
    requires
        !path.contains('\n'),
        !state.api_addr@.contains('\n'),
        !state.api_token@.contains('\n'),
        encode_utf8(body).len() <= usize::MAX,
    ensures
        ({
            let bytes = request_bytes(state, path, body);
            &&& header_end(bytes) matches Some(i)
            &&& split(header_text(bytes.take(i)), line_end()) == seq![
                "POST "@ + path + " HTTP/1.1"@,
                "Host: "@ + state.api_addr@,
                "Authorization: Bearer "@ + state.api_token@,
                "Connection: close"@,
                "Content-Type: application/json"@,
                "Content-Length: "@ + decimal(encode_utf8(body).len()),
            ]
        }),
{
    let end = line_end();
    let (a, b, c, f) = lemma_request_head(state.api_addr@, state.api_token@, path, body);
    let length = encode_utf8(body).len();
    let tail = "Connection: close"@ + end + ("Content-Type: application/json"@ + end + f);
    lemma_request_tail(length);
    reveal_strlit("POST ");
    reveal_strlit(" HTTP/1.1");
    reveal_strlit("Host: ");
    reveal_strlit("Authorization: Bearer ");
    let head = a + end + (b + end + (c + end + tail));
    assert forall|i: int| 0 <= i < a.len() implies a[i] != '\n' by {
        if 5 <= i < 5 + path.len() {
            assert(a[i] == path[i - 5]);
        }
    }
    assert forall|i: int| 0 <= i < b.len() implies b[i] != '\n' by {
        if i >= 6 {
            assert(b[i] == state.api_addr@[i - 6]);
        }
    }
    assert forall|i: int| 0 <= i < c.len() implies c[i] != '\n' by {
        if i >= 22 {
            assert(c[i] == state.api_token@[i - 22]);
        }
    }
    lemma_one_line(a);
    lemma_one_line(b);
    lemma_one_line(c);
    lemma_no_blank_line_between(c, tail + end + seq!['\r']);
    lemma_no_blank_line_between(b, c + end + (tail + end + seq!['\r']));
    lemma_no_blank_line_between(a, b + end + (c + end + (tail + end + seq!['\r'])));
    assert(a + end + (b + end + (c + end + (tail + end + seq!['\r']))) =~= head + end
        + seq!['\r']);
    lemma_head_and_body(head, encode_utf8(body));
    lemma_encode_append(head + end + end, body);
    lemma_split_at_line_end(a, b + end + (c + end + tail));
    lemma_split_at_line_end(b, c + end + tail);
    lemma_split_at_line_end(c, tail);
    assert(split(head, end) =~= seq![
        a,
        b,
        c,
        "Connection: close"@,
        "Content-Type: application/json"@,
        f,
    ]);
}

/// A call that cannot be made, or not be sent, comes out as an error that
/// passes on what the host says of it.
pub proof fn law_call_passes_failures_on(
    address: Seq<char>,
    request: Seq<u8>,
    connection: Seq<char>,
    e: Seq<char>,
)
    ensures
        api_next(
            ApiStage::Connecting { address, request },
            Event::Connected(Err(e)),
        ) == ApiStepView::Finished(Err("connect "@ + address + ": "@ + e)),
        api_next(ApiStage::Sending { connection }, Event::Sent(Err(e))) == ApiStepView::Finished(
            Err("send: "@ + e),
        ),
{
}

/// A reply that breaks off is not lost: where receiving fails or the API
/// closes, what has arrived until then is read as the reply.
pub proof fn law_call_reads_what_has_arrived(
    connection: Seq<char>,
    reply: Seq<u8>,
    e: Seq<char>,
    closed: Result<(), Seq<char>>,
)
    requires
        !splits_character(reply),
    ensures
        api_run(
            receive_more(connection, reply),
            seq![Event::Received(Err(e)), Event::Closed(closed)],
        ) == ApiStepView::Finished(reply_of(reply)),
        api_run(
            receive_more(connection, reply),
            seq![Event::Received(Ok(seq![])), Event::Closed(closed)],
        ) == ApiStepView::Finished(reply_of(reply)),
{
    let broken = seq![EventView::Received(Err(e)), Event::Closed(closed)];
    let ended = seq![EventView::Received(Ok(seq![])), Event::Closed(closed)];
    assert(broken.drop_first() =~= seq![EventView::Closed(closed)]);
    assert(ended.drop_first() =~= seq![EventView::Closed(closed)]);
    assert(broken.drop_first().drop_first() =~= seq![]);
    assert(reply + Seq::<u8>::empty() =~= reply);
    reveal_with_fuel(api_run, 3);
}

/// More is received as long as something arrives and the reply is not complete;
/// nothing that has arrived is dropped.
pub proof fn law_receiving_stops_when_complete(
    connection: Seq<char>,
    reply: Seq<u8>,
    chunk: Seq<u8>,
)
    ensures
        api_next(
            ApiStage::Receiving { connection, reply },
            Event::Received(Ok(chunk)),
        ) == if chunk.len() == 0 || is_complete(reply + chunk) {
            ApiStepView::Perform {
                stage: ApiStage::Closing { reply: reply + chunk },
                action: Action::Close { connection },
            }
        } else {
            ApiStepView::Perform {
                stage: ApiStage::Receiving { connection, reply: reply + chunk },
                action: Action::Receive { connection, max_bytes: 65536 },
            }
        },
{
}

} // verus!
