//! What the listeners do about connections.
//!
//! The listeners accept connections, shake hands and serve them; here it is decided
//! what they do next.
use crate::client::ClientIp;
use crate::security::{SecurityChecker, SecurityView};
use vstd::prelude::*;

verus! {

/// Milliseconds to wait after a connection could not be accepted.
pub const PAUSE_MILLIS: u64 = 10;

/// Seconds in which a TLS handshake must be done.
pub const HANDSHAKE_SECS: u64 = 10;

/// Seconds for which a connection is served at most.
pub const SERVE_SECS: u64 = 60;

/// How many connections there may be, and how many there are.
pub struct TurnstileView {
    pub limit: usize,
    pub open: usize,
}

impl TurnstileView {
    /// There are no more connections than there may be.
    pub open spec fn wf(self) -> bool {
        self.open <= self.limit
    }

    /// Whether there may be another connection.
    pub open spec fn has_permit(self) -> bool {
        self.open < self.limit
    }

    /// With one connection more.
    pub open spec fn entered(self) -> Self {
        TurnstileView { open: (self.open + 1) as usize, ..self }
    }

    /// With one connection less, if there is any.
    pub open spec fn left(self) -> Self {
        if self.open > 0 {
            TurnstileView { open: (self.open - 1) as usize, ..self }
        } else {
            self
        }
    }
}

/// Counts the connections of all clients together.
#[derive(Debug)]
pub struct Turnstile {
    limit: usize,
    open: usize,
}

impl Turnstile {
    /// How many connections there may be, and how many there are.
    pub closed spec fn view(&self) -> TurnstileView {
        TurnstileView { limit: self.limit, open: self.open }
    }

    /// A turnstile for at most `limit` connections at a time.
    pub fn new(limit: usize) -> (g: Self)
        ensures
            g@ == (TurnstileView { limit, open: 0 }),
            g@.wf(),
    {
        Turnstile { limit, open: 0 }
    }

    /// Counts a connection, if there may be another.
    pub fn enter(&mut self) -> (r: bool)
        requires
            old(self)@.wf(),
        ensures
            final(self)@.wf(),
            r == old(self)@.has_permit(),
            final(self)@ == if r {
                old(self)@.entered()
            } else {
                old(self)@
            },
    {
        if self.open < self.limit {
            self.open = self.open + 1;
            true
        } else {
            false
        }
    }

    /// Counts the end of a connection.
    pub fn leave(&mut self)
        requires
            old(self)@.wf(),
        ensures
            final(self)@.wf(),
            final(self)@ == old(self)@.left(),
    {
        if self.open > 0 {
            self.open = self.open - 1;
        }
    }
}

/// What has become of a connection.
#[derive(Debug, Clone, Copy, PartialEq, Eq, Structural)]
pub enum ConnState {
    /// It is waited for.
    Waiting,
    /// It is shaking hands.
    Handshaking(ClientIp),
    /// It is being served.
    Serving(ClientIp),
    /// It is over.
    Closed,
}

/// What has happened to a connection.
#[derive(Debug, Clone, Copy, PartialEq, Eq, Structural)]
pub enum ConnEvent {
    /// It could not be accepted.
    AcceptFailed,
    /// It was accepted from a client.
    Accepted(ClientIp),
    /// The handshake is done.
    HandshakeDone,
    /// The handshake has failed.
    HandshakeFailed,
    /// The handshake has taken too long.
    HandshakeTimedOut,
    /// It has ended, or was served for as long as it may be.
    Ended,
}

/// What to do about a connection.
#[derive(Debug, Clone, Copy, PartialEq, Eq, Structural)]
pub enum ConnAction {
    /// Wait for some milliseconds.
    Pause(u64),
    /// Drop it: there are too many connections.
    DropForTotal,
    /// Drop it: its client is blocked or has too many connections.
    DropForClient,
    /// Shake hands, for so many seconds at most.
    Handshake(u64),
    /// Serve it, for so many seconds at most.
    Serve(u64),
    /// Close it.
    Close,
}

/// Whether an event can happen to a connection in a state.
pub open spec fn expected(state: ConnState, event: ConnEvent) -> bool {
    match event {
        ConnEvent::AcceptFailed => state is Waiting,
        ConnEvent::Accepted(_) => state is Waiting,
        ConnEvent::HandshakeDone => state is Handshaking,
        ConnEvent::HandshakeFailed => state is Handshaking,
        ConnEvent::HandshakeTimedOut => state is Handshaking,
        ConnEvent::Ended => state is Serving,
    }
}

/// What becomes of a connection, and what is done about it.
pub open spec fn stepped(
    turnstile: TurnstileView,
    security: SecurityView,
    tls: bool,
    state: ConnState,
    event: ConnEvent,
) -> (ConnState, ConnAction) {
    match (state, event) {
        (ConnState::Waiting, ConnEvent::AcceptFailed) => (
            ConnState::Closed,
            ConnAction::Pause(PAUSE_MILLIS),
        ),
        (ConnState::Waiting, ConnEvent::Accepted(ip)) => if !turnstile.has_permit() {
            (ConnState::Closed, ConnAction::DropForTotal)
        } else if !security.admits(ip) {
            (ConnState::Closed, ConnAction::DropForClient)
        } else if tls {
            (ConnState::Handshaking(ip), ConnAction::Handshake(HANDSHAKE_SECS))
        } else {
            (ConnState::Serving(ip), ConnAction::Serve(SERVE_SECS))
        },
        (ConnState::Handshaking(ip), ConnEvent::HandshakeDone) => (
            ConnState::Serving(ip),
            ConnAction::Serve(SERVE_SECS),
        ),
        _ => (ConnState::Closed, ConnAction::Close),
    }
}

/// How many connections there are then.
pub open spec fn stepped_turnstile(
    turnstile: TurnstileView,
    security: SecurityView,
    state: ConnState,
    event: ConnEvent,
) -> TurnstileView {
    match (state, event) {
        (ConnState::Waiting, ConnEvent::Accepted(ip)) => if turnstile.has_permit()
            && security.admits(ip) {
            turnstile.entered()
        } else {
            turnstile
        },
        (ConnState::Handshaking(_), ConnEvent::HandshakeFailed) => turnstile.left(),
        (ConnState::Handshaking(_), ConnEvent::HandshakeTimedOut) => turnstile.left(),
        (ConnState::Serving(_), ConnEvent::Ended) => turnstile.left(),
        _ => turnstile,
    }
}

/// What is known of the clients then.
pub open spec fn stepped_security(
    turnstile: TurnstileView,
    security: SecurityView,
    state: ConnState,
    event: ConnEvent,
) -> SecurityView {
    match (state, event) {
        (ConnState::Waiting, ConnEvent::Accepted(ip)) => if turnstile.has_permit() {
            security.acquired(ip)
        } else {
            security
        },
        (ConnState::Handshaking(ip), ConnEvent::HandshakeFailed) => security.tls_failed(
            ip,
        ).released(ip),
        (ConnState::Handshaking(ip), ConnEvent::HandshakeTimedOut) => security.tls_failed(
            ip,
        ).released(ip),
        (ConnState::Serving(ip), ConnEvent::Ended) => security.released(ip),
        _ => security,
    }
}

/// Takes note of what has happened to a connection, with TLS or without, and tells
/// what becomes of it and what to do about it.
pub fn on_connection(
    turnstile: &mut Turnstile,
    security: &mut SecurityChecker,
    tls: bool,
    state: ConnState,
    event: ConnEvent,
) -> (r: (ConnState, ConnAction))
    requires
        old(turnstile)@.wf(),
        old(security)@.wf(),
        expected(state, event),
    ensures
        final(turnstile)@.wf(),
        final(turnstile)@ == stepped_turnstile(old(turnstile)@, old(security)@, state, event),
        final(security)@.wf(),
        final(security)@ == stepped_security(old(turnstile)@, old(security)@, state, event),
        r == stepped(old(turnstile)@, old(security)@, tls, state, event),
{
    match (state, event) {
        (ConnState::Waiting, ConnEvent::AcceptFailed) => (
            ConnState::Closed,
            ConnAction::Pause(PAUSE_MILLIS),
        ),
        (ConnState::Waiting, ConnEvent::Accepted(ip)) => {
            if !turnstile.enter() {
                return (ConnState::Closed, ConnAction::DropForTotal);
            }
            if security.check_and_acquire_connection(ip).is_err() {
                turnstile.leave();
                return (ConnState::Closed, ConnAction::DropForClient);
            }
            if tls {
                (ConnState::Handshaking(ip), ConnAction::Handshake(HANDSHAKE_SECS))
            } else {
                (ConnState::Serving(ip), ConnAction::Serve(SERVE_SECS))
            }
        },
        (ConnState::Handshaking(ip), ConnEvent::HandshakeDone) => (
            ConnState::Serving(ip),
            ConnAction::Serve(SERVE_SECS),
        ),
        (ConnState::Handshaking(ip), ConnEvent::HandshakeFailed) => {
            security.record_tls_failure(ip);
            security.release_connection(ip);
            turnstile.leave();
            (ConnState::Closed, ConnAction::Close)
        },
        (ConnState::Handshaking(ip), ConnEvent::HandshakeTimedOut) => {
            security.record_tls_failure(ip);
            security.release_connection(ip);
            turnstile.leave();
            (ConnState::Closed, ConnAction::Close)
        },
        (ConnState::Serving(ip), ConnEvent::Ended) => {
            security.release_connection(ip);
            turnstile.leave();
            (ConnState::Closed, ConnAction::Close)
        },
        _ => (ConnState::Closed, ConnAction::Close),
    }
}

/// How many connections there are once one in a state is given up.
pub open spec fn abandoned_turnstile(turnstile: TurnstileView, state: ConnState) -> TurnstileView {
    if is_live(state) {
        turnstile.left()
    } else {
        turnstile
    }
}

/// What is known of the clients once a connection in a state is given up.
pub open spec fn abandoned_security(security: SecurityView, state: ConnState) -> SecurityView {
    match state {
        ConnState::Handshaking(ip) => security.released(ip),
        ConnState::Serving(ip) => security.released(ip),
        _ => security,
    }
}

/// Takes note of a connection that is given up before anything else has happened to
/// it.
pub fn on_abandoned(turnstile: &mut Turnstile, security: &mut SecurityChecker, state: ConnState)
    requires
        old(turnstile)@.wf(),
        old(security)@.wf(),
    ensures
        final(turnstile)@.wf(),
        final(turnstile)@ == if is_live(state) {
            old(turnstile)@.left()
        } else {
            old(turnstile)@
        },
        final(security)@.wf(),
        final(security)@ == match state {
            ConnState::Handshaking(ip) => old(security)@.released(ip),
            ConnState::Serving(ip) => old(security)@.released(ip),
            _ => old(security)@,
        },
        final(turnstile)@ == abandoned_turnstile(old(turnstile)@, state),
        final(security)@ == abandoned_security(old(security)@, state),
{
    match state {
        ConnState::Handshaking(ip) => {
            security.release_connection(ip);
            turnstile.leave();
        },
        ConnState::Serving(ip) => {
            security.release_connection(ip);
            turnstile.leave();
        },
        _ => {},
    }
}

/// Whether a connection in a state is counted.
pub open spec fn is_live(state: ConnState) -> bool {
    state is Handshaking || state is Serving
}

/// The connections of a client that a connection in a state counts for.
pub open spec fn counts_for(state: ConnState, ip: ClientIp) -> nat {
    match state {
        ConnState::Handshaking(client) => if client == ip {
            1
        } else {
            0
        },
        ConnState::Serving(client) => if client == ip {
            1
        } else {
            0
        },
        _ => 0,
    }
}

/// A connection is counted for its client from the moment it is admitted until it is
/// over, however it goes, and for nobody else: what is counted for a client besides
/// it never changes.
pub proof fn law_connection_is_counted_once(
    turnstile: TurnstileView,
    security: SecurityView,
    tls: bool,
    state: ConnState,
    event: ConnEvent,
    ip: ClientIp,
)
    requires
        security.wf(),
        expected(state, event),
        counts_for(state, ip) <= security.open_connections(ip),
    ensures
        stepped_security(turnstile, security, state, event).open_connections(ip) - counts_for(
            stepped(turnstile, security, tls, state, event).0,
            ip,
        ) == security.open_connections(ip) - counts_for(state, ip),
{
    match (state, event) {
        (ConnState::Waiting, ConnEvent::Accepted(client)) => {
            crate::client::law_keys_tell_clients_apart(client, ip);
        },
        (ConnState::Handshaking(client), _) => {
            crate::client::law_keys_tell_clients_apart(client, ip);
        },
        (ConnState::Serving(client), _) => {
            crate::client::law_keys_tell_clients_apart(client, ip);
        },
        _ => {},
    }
}

/// Exactly those connections are counted that are shaking hands or being served, and
/// there are never more of them than there may be.
pub proof fn law_live_connections_are_counted(
    turnstile: TurnstileView,
    security: SecurityView,
    tls: bool,
    state: ConnState,
    event: ConnEvent,
)
    requires
        turnstile.wf(),
        expected(state, event),
        is_live(state) ==> turnstile.open > 0,
    ensures
        stepped_turnstile(turnstile, security, state, event).wf(),
        stepped_turnstile(turnstile, security, state, event).limit == turnstile.limit,
        stepped_turnstile(turnstile, security, state, event).open - if is_live(
            stepped(turnstile, security, tls, state, event).0,
        ) {
            1int
        } else {
            0int
        } == turnstile.open - if is_live(state) {
            1int
        } else {
            0int
        },
{
}

/// A handshake that fails or takes too long is noted as a failure of the client, and
/// nothing else is.
pub proof fn law_failed_handshakes_are_noted(
    turnstile: TurnstileView,
    security: SecurityView,
    state: ConnState,
    event: ConnEvent,
    ip: ClientIp,
)
    requires
        expected(state, event),
    ensures
        state == ConnState::Handshaking(ip) && (event is HandshakeFailed
            || event is HandshakeTimedOut) ==> stepped_security(
            turnstile,
            security,
            state,
            event,
        ).tls_failures == security.tls_failed(ip).tls_failures && stepped_security(
            turnstile,
            security,
            state,
            event,
        ).blocked == security.tls_failed(ip).blocked,
        !(state is Handshaking && (event is HandshakeFailed || event is HandshakeTimedOut))
            ==> stepped_security(turnstile, security, state, event).tls_failures
            == security.tls_failures && stepped_security(turnstile, security, state, event).blocked
            == security.blocked,
{
}

/// Nobody is served over TLS before the handshake is done.
pub proof fn law_handshake_comes_first(
    turnstile: TurnstileView,
    security: SecurityView,
    state: ConnState,
    event: ConnEvent,
)
    requires
        expected(state, event),
        state is Waiting,
    ensures
        stepped(turnstile, security, true, state, event).0 !is Serving,
{
}

/// A connection is dropped exactly if there are too many, or its client may not have
/// another. Otherwise it is served at once, or shakes hands first if it comes by TLS.
pub proof fn law_admitted_connections_are_served(
    turnstile: TurnstileView,
    security: SecurityView,
    tls: bool,
    ip: ClientIp,
)
    ensures
        ({
            let (state, action) = stepped(
                turnstile,
                security,
                tls,
                ConnState::Waiting,
                ConnEvent::Accepted(ip),
            );
            &&& action == ConnAction::DropForTotal <==> turnstile.open >= turnstile.limit
            &&& action == ConnAction::DropForClient <==> turnstile.open < turnstile.limit
                && !security.admits(ip)
            &&& turnstile.open < turnstile.limit && security.admits(ip) && tls ==> state
                == ConnState::Handshaking(ip) && action == ConnAction::Handshake(10)
            &&& turnstile.open < turnstile.limit && security.admits(ip) && !tls ==> state
                == ConnState::Serving(ip) && action == ConnAction::Serve(60)
            &&& !(turnstile.open < turnstile.limit && security.admits(ip)) ==> state
                == ConnState::Closed
        }),
{
}

/// A handshake may take 10 seconds, a connection is served for 60, and after a failure to
/// accept one there is a pause of 10 milliseconds. A handshake that is done leads to the
/// client being served, and whatever else ends a connection closes it.
pub proof fn law_connections_take_their_time(
    turnstile: TurnstileView,
    security: SecurityView,
    tls: bool,
    state: ConnState,
    event: ConnEvent,
    ip: ClientIp,
)
    requires
        expected(state, event),
    ensures
        stepped(turnstile, security, tls, state, event).1 matches ConnAction::Handshake(secs)
            ==> secs == 10 && tls,
        stepped(turnstile, security, tls, state, event).1 matches ConnAction::Serve(secs) ==> secs
            == 60 && stepped(turnstile, security, tls, state, event).0 is Serving,
        stepped(turnstile, security, tls, state, event).1 matches ConnAction::Pause(millis)
            ==> millis == 10,
        event is AcceptFailed ==> stepped(turnstile, security, tls, state, event) == (
            ConnState::Closed,
            ConnAction::Pause(10),
        ),
        state == ConnState::Handshaking(ip) && event is HandshakeDone ==> stepped(
            turnstile,
            security,
            tls,
            state,
            event,
        ) == (ConnState::Serving(ip), ConnAction::Serve(60)),
        event is HandshakeFailed || event is HandshakeTimedOut || event is Ended ==> stepped(
            turnstile,
            security,
            tls,
            state,
            event,
        ) == (ConnState::Closed, ConnAction::Close),
{
}

/// How many connections there are after `n` have asked, one after the other.
pub open spec fn after_entries(t: TurnstileView, n: nat) -> TurnstileView
    decreases n,
{
    if n == 0 {
        t
    } else {
        let before = after_entries(t, (n - 1) as nat);
        if before.has_permit() {
            before.entered()
        } else {
            before
        }
    }
}

/// Of all that ask exactly as many get in as there is room for.
pub proof fn law_turnstile_is_limited(t: TurnstileView, n: nat)
    requires
        t.wf(),
    ensures
        after_entries(t, n).limit == t.limit,
        after_entries(t, n).open == if t.open + n <= t.limit {
            t.open + n
        } else {
            t.limit as int
        },
        after_entries(t, n).has_permit() <==> t.open + n < t.limit,
    decreases n,
{
    if n > 0 {
        law_turnstile_is_limited(t, (n - 1) as nat);
    }
}

/// Leaving takes back what entering has counted, and never more than there is.
pub proof fn law_leaving_undoes_entering(t: TurnstileView)
    requires
        t.wf(),
    ensures
        t.has_permit() ==> t.entered().left() == t,
        t.open > 0 ==> t.left().open == t.open - 1,
        t.open == 0 ==> t.left() == t,
        t.left().limit == t.limit,
        t.open > 0 ==> t.left().has_permit(),
{
}

/// The connections that are counted for a client are those that are live.
pub proof fn law_live_connections_count_for_one_client(state: ConnState)
    ensures
        is_live(state) <==> exists|ip: ClientIp| #[trigger] counts_for(state, ip) == 1,
        !is_live(state) ==> forall|ip: ClientIp| #[trigger] counts_for(state, ip) == 0,
        forall|a: ClientIp, b: ClientIp| #[trigger]
            counts_for(state, a) == 1 && #[trigger] counts_for(state, b) == 1 ==> a == b,
{
    match state {
        ConnState::Handshaking(ip) => {
            assert(counts_for(state, ip) == 1);
        },
        ConnState::Serving(ip) => {
            assert(counts_for(state, ip) == 1);
        },
        _ => {},
    }
}

/// A connection that is given up is no longer counted, neither among all nor for its
/// client, and is held against nobody.
pub proof fn law_abandoned_connections_are_given_back(
    turnstile: TurnstileView,
    security: SecurityView,
    state: ConnState,
    ip: ClientIp,
)
    requires
        turnstile.wf(),
        is_live(state) ==> turnstile.open > 0,
        counts_for(state, ip) <= security.open_connections(ip),
    ensures
        abandoned_security(security, state).open_connections(ip) == security.open_connections(ip)
            - counts_for(state, ip),
        abandoned_security(security, state).failures(ip) == security.failures(ip),
        abandoned_security(security, state).blocks(ip) == security.blocks(ip),
        abandoned_turnstile(turnstile, state).open == turnstile.open - if is_live(state) {
            1int
        } else {
            0int
        },
        abandoned_turnstile(turnstile, state).limit == turnstile.limit,
{
    match state {
        ConnState::Handshaking(client) => {
            crate::client::law_keys_tell_clients_apart(client, ip);
        },
        ConnState::Serving(client) => {
            crate::client::law_keys_tell_clients_apart(client, ip);
        },
        _ => {},
    }
}

}
