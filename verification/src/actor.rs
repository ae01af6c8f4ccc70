//! The actor: how it starts, and how it serves one connection.
//!
//! The host does the input and output. For a connection, `accept` says what is
//! to be done first, and `handle_connection` says after each outcome what is to
//! be done next, until there is nothing left to do.
use crate::api::api_awaits;
use crate::api::api_next;
use crate::api::api_run;
use crate::api::api_step;
use crate::api::arrivals;
use crate::api::is_exact;
use crate::api::law_call_returns_the_reply;
use crate::api::law_reply_survives_chunking;
use crate::api::lemma_api_run_append;
use crate::api::receive_more;
use crate::api::ApiStage;
use crate::api::ApiStageView;
use crate::api::ApiStep;
use crate::api::ApiStepView;
use crate::api::MAX_RECEIVE;
use crate::http::canned_500;
use crate::http::html_response;
use crate::http::INTERNAL_ERROR_PAGE;
use crate::io::answers;
use crate::io::Action;
use crate::io::ActionView;
use crate::io::Event;
use crate::io::EventView;
use crate::reply::reply_of;
use crate::reply::splits_character;
use crate::reply::Reply;
use crate::routes::finish_post;
use crate::routes::post_response;
use crate::routes::route;
use crate::routes::routed;
use crate::routes::Routed;
use crate::routes::RoutedView;
use crate::state::UiState;
use vstd::prelude::*;

verus! {

// ---------------------------------------------------------------------------
// Starting
// ---------------------------------------------------------------------------
/// Where browsers connect unless the configuration says otherwise.
pub const DEFAULT_LISTEN_ADDR: &'static str = "127.0.0.1:8081";

/// What the actor is started with.
pub struct Config {
    /// Address of the tickets API.
    pub api_addr: String,
    /// Bearer token that the tickets API asks for.
    pub api_token: String,
    /// Where browsers connect.
    pub listen_addr: Option<String>,
}

/// A start for which only the listener is missing.
pub struct Startup {
    /// Where to listen.
    pub listen_addr: String,
    /// Address of the tickets API.
    pub api_addr: String,
    /// Bearer token that the tickets API asks for.
    pub api_token: String,
}

/// What is said of an initial state that is not a non-empty text.
pub const NO_INITIAL_STATE: &'static str =
    "tickets-ui needs initial_state as a non-empty JSON string \
     ({api_addr, api_token, listen_addr?})";

/// The JSON text of the initial state, given the initial state where it is a text.
pub fn init_text(state: Option<String>) -> (r: Result<String, String>)
    ensures
        match state {
            Some(text) if text@.len() > 0 => r matches Ok(t) && t@ == text@,
            _ => r matches Err(e) && e@ == NO_INITIAL_STATE@,
        },
{
    match state {
        Some(text) => {
            if text.as_str().is_empty() {
                Err(NO_INITIAL_STATE.to_owned())
            } else {
                Ok(text)
            }
        },
        None => Err(NO_INITIAL_STATE.to_owned()),
    }
}

/// Checks the configuration, given as far as the initial state could be parsed.
pub fn init_config(parsed: Result<Config, String>) -> (r: Result<Startup, String>)
    ensures
        match parsed {
            Err(e) => r matches Err(m) && m@ == "initial_state is not valid JSON Config: "@ + e@,
            Ok(config) => if config.api_addr@.len() == 0 {
                r matches Err(m) && m@ == "api_addr must be non-empty"@
            } else if config.api_token@.len() == 0 {
                r matches Err(m) && m@ == "api_token must be non-empty"@
            } else {
                r matches Ok(startup) && startup.api_addr@ == config.api_addr@
                    && startup.api_token@ == config.api_token@ && startup.listen_addr@ == (
                match config.listen_addr {
                    Some(address) => address@,
                    None => DEFAULT_LISTEN_ADDR@,
                })
            },
        },
{
    match parsed {
        Err(e) => {
            let mut message = "initial_state is not valid JSON Config: ".to_owned();
            message.append(e.as_str());
            Err(message)
        },
        Ok(config) => {
            if config.api_addr.as_str().is_empty() {
                return Err("api_addr must be non-empty".to_owned());
            }
            if config.api_token.as_str().is_empty() {
                return Err("api_token must be non-empty".to_owned());
            }
            let listen_addr = match config.listen_addr {
                Some(address) => address,
                None => DEFAULT_LISTEN_ADDR.to_owned(),
            };
            Ok(Startup { listen_addr, api_addr: config.api_addr, api_token: config.api_token })
        },
    }
}

/// The state of the actor, once the host has opened the listener or failed to.
pub fn init_listening(startup: Startup, listener: Result<String, String>) -> (r: Result<
    UiState,
    String,
>)
    ensures
        match listener {
            Ok(id) => r matches Ok(state) && state.listener_id@ == id@ && state.api_addr@
                == startup.api_addr@ && state.api_token@ == startup.api_token@,
            Err(e) => r matches Err(m) && m@ == "listen on "@ + startup.listen_addr@ + " failed: "@
                + e@,
        },
{
    match listener {
        Ok(listener_id) => Ok(
            UiState { listener_id, api_addr: startup.api_addr, api_token: startup.api_token },
        ),
        Err(e) => {
            let mut message = "listen on ".to_owned();
            message.append(startup.listen_addr.as_str());
            message.append(" failed: ");
            message.append(e.as_str());
            Err(message)
        },
    }
}

// ---------------------------------------------------------------------------
// Answering a request
// ---------------------------------------------------------------------------
/// How far the answer to a request has come: what the host is doing for it.
pub enum TryStage<T, B, R> {
    /// Receiving the request.
    Receiving,
    /// Calling the tickets API; a success sends the browser on to the location.
    Posting { stage: ApiStage<T, B, R>, location: T },
    /// Sending the response.
    Sending,
    /// Closing the connection.
    Closing,
}

/// What comes after an outcome.
pub enum TryStep<T, B, R> {
    /// The host is to do something more.
    Perform { stage: TryStage<T, B, R>, action: Action<T, B> },
    /// The request has been answered, or could not be.
    Finished(Result<(), T>),
}

/// A stage of an answer in specifications.
pub type TryStageView = TryStage<Seq<char>, Seq<u8>, Seq<u8>>;

/// A step of an answer in specifications.
pub type TryStepView = TryStep<Seq<char>, Seq<u8>, Seq<u8>>;

impl View for TryStage<String, Vec<u8>, Reply> {
    type V = TryStageView;

    open spec fn view(&self) -> TryStageView {
        match *self {
            TryStage::Receiving => TryStage::Receiving,
            TryStage::Posting { stage, location } => TryStage::Posting {
                stage: stage@,
                location: location@,
            },
            TryStage::Sending => TryStage::Sending,
            TryStage::Closing => TryStage::Closing,
        }
    }
}

impl TryStage<String, Vec<u8>, Reply> {
    /// The call of the tickets API, where there is one, is well formed.
    pub open spec fn wf(&self) -> bool {
        match *self {
            TryStage::Posting { stage, .. } => stage.wf(),
            _ => true,
        }
    }
}

impl View for TryStep<String, Vec<u8>, Reply> {
    type V = TryStepView;

    open spec fn view(&self) -> TryStepView {
        match *self {
            TryStep::Perform { stage, action } => TryStep::Perform {
                stage: stage@,
                action: action@,
            },
            TryStep::Finished(Ok(())) => TryStep::Finished(Ok(())),
            TryStep::Finished(Err(message)) => TryStep::Finished(Err(message@)),
        }
    }
}

/// Whether the event is what the stage waits for.
pub open spec fn try_awaits(stage: TryStageView, event: EventView) -> bool {
    match stage {
        TryStage::Receiving => event is Received,
        TryStage::Posting { stage, .. } => api_awaits(stage, event),
        TryStage::Sending => event is Sent,
        TryStage::Closing => event is Closed,
    }
}

/// Send the response to the browser.
pub open spec fn answer(connection: Seq<char>, response: Seq<u8>) -> TryStepView {
    TryStep::Perform {
        stage: TryStage::Sending,
        action: Action::Send { connection, data: response },
    }
}

/// What comes after the request.
pub open spec fn after_request(
    state: UiState,
    stylesheet: Seq<char>,
    connection: Seq<char>,
    request: Seq<u8>,
) -> TryStepView {
    match routed(state, stylesheet, request) {
        Routed::Respond(response) => answer(connection, response),
        Routed::Post { address, request, location } => TryStep::Perform {
            stage: TryStage::Posting {
                stage: ApiStage::Connecting { address, request },
                location,
            },
            action: Action::Connect { address },
        },
    }
}

/// What comes after an outcome during the call of the tickets API.
pub open spec fn after_api_step(
    connection: Seq<char>,
    step: ApiStepView,
    location: Seq<char>,
) -> TryStepView {
    match step {
        ApiStep::Perform { stage, action } => TryStep::Perform {
            stage: TryStage::Posting { stage, location },
            action,
        },
        ApiStep::Finished(outcome) => answer(connection, post_response(outcome, location)),
        ApiStep::Failed(message) => TryStep::Finished(Err(message)),
    }
}

/// What comes after an event that the stage waits for: receive the request,
/// route it, make the call it asks for, send the response, close.
pub open spec fn try_next(
    state: UiState,
    stylesheet: Seq<char>,
    connection: Seq<char>,
    stage: TryStageView,
    event: EventView,
) -> TryStepView {
    match (stage, event) {
        (TryStage::Receiving, Event::Received(Ok(request))) => {
            after_request(state, stylesheet, connection, request)
        },
        (TryStage::Receiving, Event::Received(Err(e))) => {
            TryStep::Finished(Err("receive: "@ + e))
        },
        (TryStage::Posting { stage, location }, event) => {
            after_api_step(connection, api_next(stage, event), location)
        },
        (TryStage::Sending, Event::Sent(Ok(_))) => TryStep::Perform {
            stage: TryStage::Closing,
            action: Action::Close { connection },
        },
        (TryStage::Sending, Event::Sent(Err(e))) => TryStep::Finished(Err("send: "@ + e)),
        (TryStage::Closing, Event::Closed(Ok(_))) => TryStep::Finished(Ok(())),
        (TryStage::Closing, Event::Closed(Err(e))) => TryStep::Finished(Err("close: "@ + e)),
        _ => TryStep::Finished(Ok(())),
    }
}

fn failed(prefix: &str, e: String) -> (r: TryStep<String, Vec<u8>, Reply>)
    ensures
        r@ == TryStepView::Finished(Err(prefix@ + e@)),
{
    let mut message = prefix.to_owned();
    message.append(e.as_str());
    TryStep::Finished(Err(message))
}

fn send_answer(connection: &str, response: Vec<u8>) -> (r: TryStep<String, Vec<u8>, Reply>)
    ensures
        r@ == answer(connection@, response@),
        r matches TryStep::Perform { stage, .. } ==> stage.wf(),
{
    TryStep::Perform {
        stage: TryStage::Sending,
        action: Action::Send { connection: connection.to_owned(), data: response },
    }
}

/// Goes on with the answer to a request after the outcome of what the host was
/// asked to do.
pub fn try_handle(
    state: &UiState,
    stylesheet: &str,
    connection_id: &str,
    stage: TryStage<String, Vec<u8>, Reply>,
    event: Event<String, Vec<u8>>,
) -> (r: TryStep<String, Vec<u8>, Reply>)
    requires
        stage.wf(),
        try_awaits(stage@, event@),
    ensures
        r@ == try_next(*state, stylesheet@, connection_id@, stage@, event@),
        r matches TryStep::Perform { stage: next, .. } ==> next.wf(),
{
    match (stage, event) {
        (TryStage::Receiving, Event::Received(Ok(request))) => {
            match route(state, stylesheet, request.as_slice()) {
                Routed::Respond(response) => send_answer(connection_id, response),
                Routed::Post { address, request, location } => TryStep::Perform {
                    action: Action::Connect { address: address.clone() },
                    stage: TryStage::Posting {
                        stage: ApiStage::Connecting { address, request },
                        location,
                    },
                },
            }
        },
        (TryStage::Receiving, Event::Received(Err(e))) => failed("receive: ", e),
        (TryStage::Posting { stage, location }, event) => match api_step(stage, event) {
            ApiStep::Perform { stage, action } => TryStep::Perform {
                stage: TryStage::Posting { stage, location },
                action,
            },
            ApiStep::Finished(outcome) => send_answer(
                connection_id,
                finish_post(outcome, location.as_str()),
            ),
            ApiStep::Failed(message) => TryStep::Finished(Err(message)),
        },
        (TryStage::Sending, Event::Sent(Ok(_))) => TryStep::Perform {
            stage: TryStage::Closing,
            action: Action::Close { connection: connection_id.to_owned() },
        },
        (TryStage::Sending, Event::Sent(Err(e))) => failed("send: ", e),
        (TryStage::Closing, Event::Closed(Ok(_))) => TryStep::Finished(Ok(())),
        (TryStage::Closing, Event::Closed(Err(e))) => failed("close: ", e),
        _ => vstd::pervasive::unreached(),
    }
}

// ---------------------------------------------------------------------------
// Serving a connection
// ---------------------------------------------------------------------------
/// How far a connection has come: what the host is doing for it.
pub enum Stage<T, B, R> {
    /// Answering the request.
    Handling(TryStage<T, B, R>),
    /// Logging that the request could not be answered.
    Logging,
    /// Sending the response that stands in for the answer.
    Apologizing,
    /// Closing the connection all the same.
    Dropping,
    /// Nothing: the connection has been dealt with.
    Done,
}

/// A stage of a connection in specifications.
pub type StageView = Stage<Seq<char>, Seq<u8>, Seq<u8>>;

impl View for Stage<String, Vec<u8>, Reply> {
    type V = StageView;

    open spec fn view(&self) -> StageView {
        match *self {
            Stage::Handling(stage) => Stage::Handling(stage@),
            Stage::Logging => Stage::Logging,
            Stage::Apologizing => Stage::Apologizing,
            Stage::Dropping => Stage::Dropping,
            Stage::Done => Stage::Done,
        }
    }
}

impl Stage<String, Vec<u8>, Reply> {
    /// The answer to the request, where it is under way, is well formed.
    pub open spec fn wf(&self) -> bool {
        match *self {
            Stage::Handling(stage) => stage.wf(),
            _ => true,
        }
    }
}

/// Whether the event is what the stage waits for.
pub open spec fn awaits(stage: StageView, event: EventView) -> bool {
    match stage {
        Stage::Handling(stage) => try_awaits(stage, event),
        Stage::Logging => event is Logged,
        Stage::Apologizing => event is Sent,
        Stage::Dropping => event is Closed,
        Stage::Done => false,
    }
}

/// What is logged of a request that could not be answered.
pub open spec fn failure_message(connection: Seq<char>, e: Seq<char>) -> Seq<char> {
    "[tickets-ui] handle-connection failed (conn="@ + connection + "): "@ + e
}

/// What comes after an event that the stage waits for.
///
/// A request that cannot be answered does not stop the actor: it is logged, and
/// the browser gets the canned error page. How sending that page and closing
/// after it come out does not matter.
pub open spec fn next(
    state: UiState,
    stylesheet: Seq<char>,
    connection: Seq<char>,
    stage: StageView,
    event: EventView,
) -> (StageView, ActionView) {
    match stage {
        Stage::Handling(stage) => match try_next(state, stylesheet, connection, stage, event) {
            TryStep::Perform { stage, action } => (Stage::Handling(stage), action),
            TryStep::Finished(Ok(_)) => (Stage::Done, Action::Stop),
            TryStep::Finished(Err(e)) => (
                Stage::Logging,
                Action::Log { message: failure_message(connection, e) },
            ),
        },
        Stage::Logging => (
            Stage::Apologizing,
            Action::Send { connection, data: html_response(500, INTERNAL_ERROR_PAGE@) },
        ),
        Stage::Apologizing => (Stage::Dropping, Action::Close { connection }),
        Stage::Dropping => (Stage::Done, Action::Stop),
        Stage::Done => (Stage::Done, Action::Stop),
    }
}

/// What comes first on a connection: its request is received.
pub open spec fn first(connection: Seq<char>) -> (StageView, ActionView) {
    (
        Stage::Handling(TryStage::Receiving),
        Action::Receive { connection, max_bytes: MAX_RECEIVE },
    )
}

/// Begins to serve a connection.
pub fn accept(connection_id: &str) -> (r: (Stage<String, Vec<u8>, Reply>, Action<String, Vec<u8>>))
    ensures
        r.0.wf(),
        (r.0@, r.1@) == first(connection_id@),
{
    (
        Stage::Handling(TryStage::Receiving),
        Action::Receive { connection: connection_id.to_owned(), max_bytes: MAX_RECEIVE },
    )
}

/// Goes on serving a connection after the outcome of what the host was asked to do.
pub fn handle_connection(
    state: &UiState,
    stylesheet: &str,
    connection_id: &str,
    stage: Stage<String, Vec<u8>, Reply>,
    event: Event<String, Vec<u8>>,
) -> (r: (Stage<String, Vec<u8>, Reply>, Action<String, Vec<u8>>))
    requires
        stage.wf(),
        awaits(stage@, event@),
    ensures
        r.0.wf(),
        (r.0@, r.1@) == next(*state, stylesheet@, connection_id@, stage@, event@),
{
    match stage {
        Stage::Handling(stage) => {
            match try_handle(state, stylesheet, connection_id, stage, event) {
                TryStep::Perform { stage, action } => (Stage::Handling(stage), action),
                TryStep::Finished(Ok(_)) => (Stage::Done, Action::Stop),
                TryStep::Finished(Err(e)) => {
                    let mut message = "[tickets-ui] handle-connection failed (conn=".to_owned();
                    message.append(connection_id);
                    message.append("): ");
                    message.append(e.as_str());
                    (Stage::Logging, Action::Log { message })
                },
            }
        },
        Stage::Logging => (
            Stage::Apologizing,
            Action::Send { connection: connection_id.to_owned(), data: canned_500() },
        ),
        Stage::Apologizing => (
            Stage::Dropping,
            Action::Close { connection: connection_id.to_owned() },
        ),
        Stage::Dropping => (Stage::Done, Action::Stop),
        Stage::Done => (Stage::Done, Action::Stop),
    }
}

// ---------------------------------------------------------------------------
// Laws
// ---------------------------------------------------------------------------
/// Where the service of a connection is after a run of events, each of them the
/// outcome of what the host was asked to do before.
pub open spec fn run(
    state: UiState,
    stylesheet: Seq<char>,
    connection: Seq<char>,
    start: (StageView, ActionView),
    events: Seq<EventView>,
) -> (StageView, ActionView)
    decreases events.len(),
{
    if events.len() == 0 {
        start
    } else {
        run(
            state,
            stylesheet,
            connection,
            next(state, stylesheet, connection, start.0, events[0]),
            events.drop_first(),
        )
    }
}

/// The host is always asked for what is awaited: the outcomes of the action are
/// the events that the stage waits for. So a host that reports the outcome of
/// each action never comes with an event that is not expected.
pub proof fn law_outcomes_are_awaited(
    state: UiState,
    stylesheet: Seq<char>,
    connection: Seq<char>,
    stage: StageView,
    event: EventView,
)
    requires
        awaits(stage, event),
    ensures
        forall|e: EventView|
            #![trigger awaits(first(connection).0, e)]
            answers(first(connection).1, e) == awaits(first(connection).0, e),
        forall|e: EventView|
            #![trigger awaits(next(state, stylesheet, connection, stage, event).0, e)]
            ({
                let (then, action) = next(state, stylesheet, connection, stage, event);
                answers(action, e) == awaits(then, e)
            }),
{
}

/// A request that cannot be answered does not stop the actor: the failure is
/// logged, the browser is sent the canned error page, and the connection is
/// closed, however logging, sending and closing come out.
pub proof fn law_failure_is_logged_and_answered(
    state: UiState,
    stylesheet: Seq<char>,
    connection: Seq<char>,
    stage: TryStageView,
    event: EventView,
    e: Seq<char>,
    sent: Result<u64, Seq<char>>,
    closed: Result<(), Seq<char>>,
)
    requires
        try_next(state, stylesheet, connection, stage, event) == TryStepView::Finished(Err(e)),
    ensures
        ({
            let logging = next(state, stylesheet, connection, Stage::Handling(stage), event);
            let sending = next(state, stylesheet, connection, logging.0, Event::Logged);
            let closing = next(state, stylesheet, connection, sending.0, Event::Sent(sent));
            let done = next(state, stylesheet, connection, closing.0, Event::Closed(closed));
            &&& logging.1 == (ActionView::Log { message: failure_message(connection, e) })
            &&& sending.1 == (ActionView::Send {
                connection,
                data: html_response(500, INTERNAL_ERROR_PAGE@),
            })
            &&& closing.1 == (ActionView::Close { connection })
            &&& done == (StageView::Done, ActionView::Stop)
        }),
{
}

/// A request that leads to a response gets it, and then the connection is closed.
pub proof fn law_request_is_answered(
    state: UiState,
    stylesheet: Seq<char>,
    connection: Seq<char>,
    request: Seq<u8>,
    response: Seq<u8>,
    sent: u64,
)
    requires
        routed(state, stylesheet, request) == RoutedView::Respond(response),
    ensures
        ({
            let sending = next(
                state,
                stylesheet,
                connection,
                first(connection).0,
                Event::Received(Ok(request)),
            );
            let closing = next(state, stylesheet, connection, sending.0, Event::Sent(Ok(sent)));
            let done = next(state, stylesheet, connection, closing.0, Event::Closed(Ok(())));
            &&& sending.1 == (ActionView::Send { connection, data: response })
            &&& closing.1 == (ActionView::Close { connection })
            &&& done == (StageView::Done, ActionView::Stop)
        }),
{
}

/// Runs one after the other make one run.
proof fn lemma_run_append(
    state: UiState,
    stylesheet: Seq<char>,
    connection: Seq<char>,
    start: (StageView, ActionView),
    events: Seq<EventView>,
    more: Seq<EventView>,
)
    ensures
        run(state, stylesheet, connection, start, events + more) == run(
            state,
            stylesheet,
            connection,
            run(state, stylesheet, connection, start, events),
            more,
        ),
    decreases events.len(),
{
    if events.len() == 0 {
        assert(events + more =~= more);
    } else {
        assert((events + more).drop_first() =~= events.drop_first() + more);
        lemma_run_append(
            state,
            stylesheet,
            connection,
            next(state, stylesheet, connection, start.0, events[0]),
            events.drop_first(),
            more,
        );
    }
}

/// As long as a call of the tickets API goes on, so does the service of the
/// connection that waits for it.
proof fn lemma_run_posting(
    state: UiState,
    stylesheet: Seq<char>,
    connection: Seq<char>,
    location: Seq<char>,
    stage: ApiStageView,
    action: ActionView,
    events: Seq<EventView>,
)
    ensures
        api_run(ApiStep::Perform { stage, action }, events) matches ApiStep::Perform {
            stage: then,
            action: act,
        } ==> run(
            state,
            stylesheet,
            connection,
            (Stage::Handling(TryStage::Posting { stage, location }), action),
            events,
        ) == (Stage::Handling(TryStage::Posting { stage: then, location }), act),
    decreases events.len(),
{
    if events.len() > 0 {
        match api_next(stage, events[0]) {
            ApiStep::Perform { stage: s, action: a } => {
                lemma_run_posting(
                    state,
                    stylesheet,
                    connection,
                    location,
                    s,
                    a,
                    events.drop_first(),
                );
            },
            other => {
                reveal_with_fuel(api_run, 2);
            },
        }
    }
}

/// A request that leads to a call of the tickets API is answered by how the
/// call comes out, whatever that is: the service of the connection follows the
/// call, and where it ends, the answer is sent, or the failure is logged.
pub proof fn law_form_is_answered_by_the_outcome(
    state: UiState,
    stylesheet: Seq<char>,
    connection: Seq<char>,
    request: Seq<u8>,
    events: Seq<EventView>,
)
    requires
        routed(state, stylesheet, request) is Post,
        events.len() > 0,
        api_run(call_of(state, stylesheet, request), events.drop_last()) is Perform,
    ensures
        ({
            let location = routed(state, stylesheet, request)->location;
            let there = run(
                state,
                stylesheet,
                connection,
                first(connection),
                seq![Event::Received(Ok(request))] + events,
            );
            match api_run(call_of(state, stylesheet, request), events) {
                ApiStep::Perform { stage, action } => there == (
                    Stage::Handling(TryStage::Posting { stage, location }),
                    action,
                ),
                ApiStep::Finished(outcome) => there == (
                    StageView::Handling(TryStage::Sending),
                    ActionView::Send {
                        connection,
                        data: post_response(outcome, location),
                    },
                ),
                ApiStep::Failed(message) => there == (
                    StageView::Logging,
                    ActionView::Log { message: failure_message(connection, message) },
                ),
            }
        }),
{
    let location = routed(state, stylesheet, request)->location;
    let start = first(connection);
    let opening = seq![EventView::Received(Ok(request))];
    let before = events.drop_last();
    let last = seq![events.last()];
    let step = call_of(state, stylesheet, request);
    if let ApiStep::Perform { stage, action } = step {
        assert(run(state, stylesheet, connection, start, opening) == (
            Stage::Handling(TryStage::Posting { stage, location }),
            action,
        )) by {
            assert(opening.drop_first() =~= seq![]);
            reveal_with_fuel(run, 2);
        }
        lemma_run_posting(state, stylesheet, connection, location, stage, action, before);
        lemma_run_append(state, stylesheet, connection, start, opening, before);
        lemma_run_append(state, stylesheet, connection, start, opening + before, last);
        assert(opening + events =~= opening + before + last);
        assert(events =~= before + last);
        lemma_api_run_append(step, before, last);
        assert(last.drop_first() =~= seq![]);
        reveal_with_fuel(run, 2);
        reveal_with_fuel(api_run, 2);
    }
}

/// The call of the tickets API that a request leads to, at its beginning.
pub open spec fn call_of(state: UiState, stylesheet: Seq<char>, request: Seq<u8>) -> ApiStepView {
    match routed(state, stylesheet, request) {
        Routed::Post { address, request, .. } => ApiStep::Perform {
            stage: ApiStage::Connecting { address, request },
            action: Action::Connect { address },
        },
        Routed::Respond(_) => ApiStep::Failed(seq![]),
    }
}

/// A form whose call succeeds at every step is answered by what the API
/// replies, however the reply is cut into pieces and whether or not closing
/// succeeds.
pub proof fn law_form_is_answered_by_the_reply(
    state: UiState,
    stylesheet: Seq<char>,
    connection: Seq<char>,
    request: Seq<u8>,
    api_connection: Seq<char>,
    sent: u64,
    reply: Seq<u8>,
    chunks: Seq<Seq<u8>>,
    closed: Result<(), Seq<char>>,
)
    requires
        routed(state, stylesheet, request) is Post,
        is_exact(reply),
        !splits_character(reply),
        chunks.flatten() == reply,
        forall|k: int| 0 <= k < chunks.len() ==> (#[trigger] chunks[k]).len() > 0,
    ensures
        run(
            state,
            stylesheet,
            connection,
            first(connection),
            seq![Event::Received(Ok(request))] + (seq![
                Event::Connected(Ok(api_connection)),
                Event::Sent(Ok(sent)),
            ] + arrivals(chunks) + seq![Event::Closed(closed)]),
        ) == (
            StageView::Handling(TryStage::Sending),
            ActionView::Send {
                connection,
                data: post_response(
                    reply_of(reply),
                    routed(state, stylesheet, request)->location,
                ),
            },
        ),
{
    if let Routed::Post { address, request: data, .. } = routed(state, stylesheet, request) {
        let call = seq![
            EventView::Connected(Ok(api_connection)),
            Event::Sent(Ok(sent)),
        ];
        let last = seq![EventView::Closed(closed)];
        let step = call_of(state, stylesheet, request);
        law_call_returns_the_reply(address, data, api_connection, sent, reply, chunks, closed);
        assert((call + arrivals(chunks) + last).drop_last() =~= call + arrivals(chunks));
        assert(api_run(step, call) == receive_more(api_connection, seq![])) by {
            assert(call.drop_first() =~= seq![EventView::Sent(Ok(sent))]);
            assert(call.drop_first().drop_first() =~= seq![]);
            reveal_with_fuel(api_run, 3);
        }
        law_reply_survives_chunking(api_connection, reply, chunks);
        lemma_api_run_append(step, call, arrivals(chunks));
        law_form_is_answered_by_the_outcome(
            state,
            stylesheet,
            connection,
            request,
            call + arrivals(chunks) + last,
        );
    }
}

/// The stages differ at most in the request that is about to be sent to the
/// tickets API.
pub open spec fn alike(a: StageView, b: StageView) -> bool {
    match (a, b) {
        (
            Stage::Handling(
                TryStage::Posting {
                    stage: ApiStage::Connecting { address: a1, .. },
                    location: l1,
                },
            ),
            Stage::Handling(
                TryStage::Posting {
                    stage: ApiStage::Connecting { address: a2, .. },
                    location: l2,
                },
            ),
        ) => a1 == a2 && l1 == l2,
        _ => a == b,
    }
}

/// The host is asked to do the same, but for the bytes of a request that is
/// sent over a connection to the tickets API.
pub open spec fn asked_alike(
    a: (StageView, ActionView),
    b: (StageView, ActionView),
) -> bool {
    &&& alike(a.0, b.0)
    &&& match (a.0, a.1, b.1) {
        (
            Stage::Handling(
                TryStage::Posting { stage: ApiStage::Sending { connection }, .. },
            ),
            Action::Send { connection: c1, .. },
            Action::Send { connection: c2, .. },
        ) => c1 == connection && c2 == connection,
        _ => a.1 == b.1,
    }
}

/// One step with two states that differ in the token.
proof fn lemma_next_alike(
    state: UiState,
    other: UiState,
    stylesheet: Seq<char>,
    connection: Seq<char>,
    a: StageView,
    b: StageView,
    event: EventView,
)
    requires
        state.api_addr@ == other.api_addr@,
        alike(a, b),
    ensures
        asked_alike(
            next(state, stylesheet, connection, a, event),
            next(other, stylesheet, connection, b, event),
        ),
{
}

/// The browser never sees the token: with another token, the whole service of a
/// connection asks the host for the same things and sends the browser the same
/// bytes, whatever comes back from the network. Only what is sent over the
/// connection to the tickets API differs.
pub proof fn law_token_stays_hidden(
    state: UiState,
    other: UiState,
    stylesheet: Seq<char>,
    connection: Seq<char>,
    events: Seq<EventView>,
)
    requires
        state.api_addr@ == other.api_addr@,
    ensures
        asked_alike(
            run(state, stylesheet, connection, first(connection), events),
            run(other, stylesheet, connection, first(connection), events),
        ),
    decreases events.len(),
{
    if events.len() > 0 {
        let before = events.drop_last();
        let last = seq![events.last()];
        law_token_stays_hidden(state, other, stylesheet, connection, before);
        assert(before + last =~= events);
        lemma_run_append(state, stylesheet, connection, first(connection), before, last);
        lemma_run_append(other, stylesheet, connection, first(connection), before, last);
        let a = run(state, stylesheet, connection, first(connection), before);
        let b = run(other, stylesheet, connection, first(connection), before);
        lemma_next_alike(state, other, stylesheet, connection, a.0, b.0, events.last());
        assert(last.drop_first() =~= seq![]);
        reveal_with_fuel(run, 2);
    }
}

/// Where the request cannot be received, or the answer not be sent, or the
/// connection not be closed, that is a failure, and it is logged with what the
/// host says of it. Otherwise the service goes on.
pub proof fn law_failures_are_noticed(
    state: UiState,
    stylesheet: Seq<char>,
    connection: Seq<char>,
    e: Seq<char>,
    sent: u64,
)
    ensures
        next(
            state,
            stylesheet,
            connection,
            first(connection).0,
            Event::Received(Err(e)),
        ).1 == (ActionView::Log {
            message: "[tickets-ui] handle-connection failed (conn="@ + connection + "): "@ + (
            "receive: "@ + e),
        }),
        next(
            state,
            stylesheet,
            connection,
            Stage::Handling(TryStage::Sending),
            Event::Sent(Err(e)),
        ).1 == (ActionView::Log {
            message: "[tickets-ui] handle-connection failed (conn="@ + connection + "): "@ + (
            "send: "@ + e),
        }),
        next(
            state,
            stylesheet,
            connection,
            Stage::Handling(TryStage::Closing),
            Event::Closed(Err(e)),
        ).1 == (ActionView::Log {
            message: "[tickets-ui] handle-connection failed (conn="@ + connection + "): "@ + (
            "close: "@ + e),
        }),
        first(connection).1 == (ActionView::Receive { connection, max_bytes: 65536 }),
{
}

/// A request that leads to a call of the tickets API has that call begun: the
/// host is asked to connect to the very address, and the very request is kept
/// for when it has.
pub proof fn law_form_begins_a_call(
    state: UiState,
    stylesheet: Seq<char>,
    connection: Seq<char>,
    request: Seq<u8>,
    address: Seq<char>,
    call: Seq<u8>,
    location: Seq<char>,
    api_connection: Seq<char>,
)
    requires
        routed(state, stylesheet, request) == (RoutedView::Post {
            address,
            request: call,
            location,
        }),
    ensures
        ({
            let connecting = next(
                state,
                stylesheet,
                connection,
                first(connection).0,
                Event::Received(Ok(request)),
            );
            let sending = next(
                state,
                stylesheet,
                connection,
                connecting.0,
                Event::Connected(Ok(api_connection)),
            );
            &&& connecting.1 == (ActionView::Connect { address })
            &&& sending.1 == (ActionView::Send { connection: api_connection, data: call })
        }),
{
}

} // verus!
