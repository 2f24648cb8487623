use vstd::prelude::*;
use vstd::string::StringSliceAdditionalSpecFns;
use vstd::utf8::encode_utf8;
use crate::query::target_params;
use crate::request::{decode_request, request_target, route_part};
use crate::split::words;
use crate::wire::{
    ContentType, Response, Status, append_bytes, append_decimal, bytes_eq, bytes_of, decimal,
};

verus! {

/// A stored user.
pub struct User {
    pub id: u32,
    pub name: String,
}

/// Where a request goes, by its path.
#[derive(Clone, Copy, PartialEq, Eq, Structural)]
pub enum Route {
    Root,
    GetUser,
    Health,
    Unknown,
}

pub open spec fn route_of(path: Seq<u8>) -> Route {
    if path == "/".spec_bytes() {
        Route::Root
    } else if path == "/get".spec_bytes() {
        Route::GetUser
    } else if path == "/health".spec_bytes() {
        Route::Health
    } else {
        Route::Unknown
    }
}

/// Picks the route of a path by exact match.
pub fn route(path: &[u8]) -> (r: Route)
    ensures
        r == route_of(path@),
{
    if bytes_eq(path, "/".as_bytes()) {
        Route::Root
    } else if bytes_eq(path, "/get".as_bytes()) {
        Route::GetUser
    } else if bytes_eq(path, "/health".as_bytes()) {
        Route::Health
    } else {
        Route::Unknown
    }
}

/// Where the handling of one connection stands.
#[derive(Clone, Copy, PartialEq, Eq, Structural)]
pub enum Phase {
    /// Waiting for the bytes of the request.
    Reading,
    /// Waiting for the store to look a user up.
    AwaitingUser,
    /// Waiting for the store's liveness probe.
    AwaitingProbe,
    /// A reply was sent or the connection dropped; nothing more happens.
    Done,
}

/// What the outside world reports to the handler.
pub enum Event {
    /// The bytes of one read.
    Received(Vec<u8>),
    ReadFailed,
    UserFound(User),
    /// The lookup found no user, or the store failed.
    UserMissing,
    ProbeSucceeded,
    ProbeFailed,
}

/// What the handler asks of the outside world.
pub enum Action {
    /// Write this reply and close the connection.
    Reply(Response),
    /// Close the connection without a reply.
    Close,
    /// Look up the user whose id is given in these bytes.
    FetchUser(Vec<u8>),
    /// Run the store's liveness probe.
    Probe,
    /// Nothing to do.
    Idle,
}

pub open spec fn greeting() -> Seq<u8> {
    "<html><body>Hola</body></html>".spec_bytes()
}

pub open spec fn bad_request() -> Seq<u8> {
    "<html><body>400 Bad Request</body></html>".spec_bytes()
}

pub open spec fn healthy() -> Seq<u8> {
    "Healthy".spec_bytes()
}

pub open spec fn unhealthy() -> Seq<u8> {
    "UnHealthy".spec_bytes()
}

pub open spec fn id_key() -> Seq<u8> {
    "id".spec_bytes()
}

/// The body that shows a user: its name, then its id in decimal.
pub open spec fn user_body(u: User) -> Seq<u8> {
    "name - ".spec_bytes() + encode_utf8(u.name@) + "\nid - ".spec_bytes() + decimal(u.id as nat)
}

pub open spec fn replies(a: Action, s: Status, c: ContentType, body: Seq<u8>) -> bool {
    match a {
        Action::Reply(r) => r.status == s && r.content_type == c && r.body@ == body,
        _ => false,
    }
}

pub open spec fn fetches(a: Action, id: Seq<u8>) -> bool {
    match a {
        Action::FetchUser(v) => v@ == id,
        _ => false,
    }
}

/// How the handler answers a freshly read buffer.
pub open spec fn on_request(buf: Seq<u8>, next: Phase, action: Action) -> bool {
    let w = words(buf);
    if w.len() < 2 {
        next == Phase::Done && action is Close
    } else {
        match route_of(route_part(w[1])) {
            Route::Root => next == Phase::Done && replies(
                action,
                Status::Success,
                ContentType::Html,
                greeting(),
            ),
            Route::GetUser => {
                let params = target_params(request_target(buf));
                if params.contains_key(id_key()) {
                    next == Phase::AwaitingUser && fetches(action, params[id_key()])
                } else {
                    next == Phase::Done && replies(
                        action,
                        Status::BadRequest,
                        ContentType::Html,
                        bad_request(),
                    )
                }
            },
            Route::Health => next == Phase::AwaitingProbe && action is Probe,
            Route::Unknown => next == Phase::Done && replies(
                action,
                Status::BadRequest,
                ContentType::Html,
                bad_request(),
            ),
        }
    }
}

/// One step of the handler: in `phase`, on `event`, it moves to `next` and
/// asks for `action`. An event that the phase does not wait for counts as a
/// failure of what it waits for.
pub open spec fn handles(phase: Phase, event: Event, next: Phase, action: Action) -> bool {
    match phase {
        Phase::Reading => match event {
            Event::Received(buf) => on_request(buf@, next, action),
            _ => next == Phase::Done && action is Close,
        },
        Phase::AwaitingUser => match event {
            Event::UserFound(u) => next == Phase::Done && replies(
                action,
                Status::Success,
                ContentType::Json,
                user_body(u),
            ),
            _ => next == Phase::Done && replies(
                action,
                Status::BadRequest,
                ContentType::Html,
                bad_request(),
            ),
        },
        Phase::AwaitingProbe => match event {
            Event::ProbeSucceeded => next == Phase::Done && replies(
                action,
                Status::Success,
                ContentType::Plain,
                healthy(),
            ),
            _ => next == Phase::Done && replies(
                action,
                Status::InternalError,
                ContentType::Plain,
                unhealthy(),
            ),
        },
        Phase::Done => next == Phase::Done && action is Idle,
    }
}

fn reply(status: Status, content_type: ContentType, body: Vec<u8>) -> (r: Action)
    ensures
        replies(r, status, content_type, body@),
{
    Action::Reply(Response { status, content_type, body })
}

fn bad_request_reply() -> (r: Action)
    ensures
        replies(r, Status::BadRequest, ContentType::Html, bad_request()),
{
    reply(Status::BadRequest, ContentType::Html, bytes_of("<html><body>400 Bad Request</body></html>"))
}

/// The body that shows a user.
pub fn user_reply_body(u: &User) -> (r: Vec<u8>)
    ensures
        r@ == user_body(*u),
{
    let mut out = bytes_of("name - ");
    append_bytes(&mut out, u.name.as_str().as_bytes());
    append_bytes(&mut out, "\nid - ".as_bytes());
    append_decimal(&mut out, u.id);
    out
}

fn on_received(buf: &[u8]) -> (r: (Phase, Action))
    ensures
        on_request(buf@, r.0, r.1),
{
    match decode_request(buf) {
        None => (Phase::Done, Action::Close),
        Some(req) => match route(req.path.as_slice()) {
            Route::Root => (
                Phase::Done,
                reply(Status::Success, ContentType::Html, bytes_of("<html><body>Hola</body></html>")),
            ),
            Route::GetUser => match req.query.get("id".as_bytes()) {
                Some(id) => {
                    let v = id.clone();
                    assert(v@ =~= id@);
                    (Phase::AwaitingUser, Action::FetchUser(v))
                },
                None => (Phase::Done, bad_request_reply()),
            },
            Route::Health => (Phase::AwaitingProbe, Action::Probe),
            Route::Unknown => (Phase::Done, bad_request_reply()),
        },
    }
}

/// Advances the handling of one connection by one event.
pub fn step(phase: Phase, event: Event) -> (r: (Phase, Action))
    ensures
        handles(phase, event, r.0, r.1),
{
    match phase {
        Phase::Reading => match event {
            Event::Received(buf) => on_received(buf.as_slice()),
            _ => (Phase::Done, Action::Close),
        },
        Phase::AwaitingUser => match event {
            Event::UserFound(u) => (
                Phase::Done,
                reply(Status::Success, ContentType::Json, user_reply_body(&u)),
            ),
            _ => (Phase::Done, bad_request_reply()),
        },
        Phase::AwaitingProbe => match event {
            Event::ProbeSucceeded => (
                Phase::Done,
                reply(Status::Success, ContentType::Plain, bytes_of("Healthy")),
            ),
            _ => (
                Phase::Done,
                reply(Status::InternalError, ContentType::Plain, bytes_of("UnHealthy")),
            ),
        },
        Phase::Done => (Phase::Done, Action::Idle),
    }
}

/// Whether an action ends the connection: a reply, or a close without one.
pub open spec fn is_outcome(a: Action) -> bool {
    a is Reply || a is Close
}

/// How many of `actions` end the connection.
pub open spec fn outcomes(actions: Seq<Action>) -> nat
    decreases actions.len(),
{
    if actions.len() == 0 {
        0
    } else {
        outcomes(actions.drop_last()) + if is_outcome(actions.last()) {
            1nat
        } else {
            0nat
        }
    }
}

/// A run of the handler on one connection: it starts reading, and each
/// event takes it from one phase to the next with one action.
pub open spec fn is_run(phases: Seq<Phase>, events: Seq<Event>, actions: Seq<Action>) -> bool {
    &&& phases.len() == events.len() + 1
    &&& actions.len() == events.len()
    &&& phases[0] == Phase::Reading
    &&& forall|i: int|
        0 <= i < events.len() ==> handles(#[trigger] phases[i], events[i], phases[i + 1], actions[i])
}

/// Every connection ends in exactly one way. Along any run, at most one
/// action replies or closes; the run is over exactly when one has; after
/// the first event the handler never reads again, and any two events end it.
pub proof fn lemma_one_outcome(phases: Seq<Phase>, events: Seq<Event>, actions: Seq<Action>)
    requires
        is_run(phases, events, actions),
    ensures
        outcomes(actions) <= 1,
        (phases.last() == Phase::Done) == (outcomes(actions) == 1),
        events.len() >= 1 ==> phases.last() != Phase::Reading,
        events.len() >= 2 ==> phases.last() == Phase::Done,
    decreases events.len(),
{
    if events.len() > 0 {
        let n = events.len() - 1;
        let ps = phases.drop_last();
        let es = events.drop_last();
        let acts = actions.drop_last();
        assert forall|i: int| 0 <= i < es.len() implies handles(
            #[trigger] ps[i],
            es[i],
            ps[i + 1],
            acts[i],
        ) by {
            assert(handles(phases[i], events[i], phases[i + 1], actions[i]));
        }
        lemma_one_outcome(ps, es, acts);
        assert(ps.last() == phases[n]);
        assert(handles(phases[n], events[n], phases[n + 1], actions[n]));
        assert(phases.last() == phases[n + 1]);
        assert(actions.last() == actions[n]);
    } else {
        assert(phases.last() == phases[0]);
    }
}

} // verus!
