//! The coordinator: the one owner of the session table.
//!
//! The broker takes one message at a time, changes the table, and hands back
//! what is to be written to which connection and which connection to let go
//! of. Writing is the caller's part; a write that fails is reported back
//! with `handle_send_failure`.

use crate::clock;
use crate::proto;
use crate::session::{
    sub_acks, ConnectedSession, ConnectedSessionView, Session, SessionState, SessionStateView,
    SessionView,
};
use crate::string_map::StringMap;
use crate::{
    ClientId, ConnReq, ConnReqView, ConnectionHandle, Delivery, DeliveryView, Event, EventView,
    Message, MessageView,
};
use std::time::Instant;
use vstd::prelude::*;

verus! {

/// How many messages the queue in front of the broker holds by default.
pub const DEFAULT_QUEUE_CAPACITY: usize = 1024;

/// The session table: the session of each client, under the client's id.
pub type Sessions = Map<Seq<char>, SessionView>;

/// What a step of the broker leaves: the session table, and the messages to
/// deliver, in the order in which they are to be written.
pub struct Outcome {
    pub sessions: Sessions,
    pub deliveries: Seq<DeliveryView>,
}

/// The mathematical content of a table of sessions.
pub open spec fn session_views(sessions: Map<Seq<char>, Session>) -> Sessions {
    sessions.map_values(|s: Session| s@)
}

/// The mathematical content of a list of deliveries.
pub open spec fn delivery_views(deliveries: Seq<Delivery>) -> Seq<DeliveryView> {
    deliveries.map_values(|d: Delivery| d@)
}

/// The delivery of `event`, about `client`, to the connection `handle`.
pub open spec fn deliver(
    handle: ConnectionHandle,
    client: Seq<char>,
    event: EventView,
) -> DeliveryView {
    DeliveryView { handle, message: MessageView { client_id: client, event } }
}

/// Nothing, or the one delivery.
pub open spec fn at_most_one(delivery: Option<DeliveryView>) -> Seq<DeliveryView> {
    match delivery {
        Some(d) => seq![d],
        None => Seq::<DeliveryView>::empty(),
    }
}

/// The table with `session` for `client`, or without a session for `client`.
pub open spec fn with_session(
    sessions: Sessions,
    client: Seq<char>,
    session: Option<SessionView>,
) -> Sessions {
    match session {
        Some(s) => sessions.insert(client, s),
        None => sessions.remove(client),
    }
}

/// The CONNACK that accepts a connection.
pub open spec fn accepted(session_present: bool) -> EventView {
    EventView::ConnAck(
        proto::ConnAck { session_present, return_code: proto::ConnectReturnCode::Accepted },
    )
}

/// A connect request for `client` at `now`.
///
/// Without a session for the client, a new one is made on the request's
/// connection and acknowledged. With a session on the very same connection
/// the request is a protocol violation: the connection is told to drop and
/// the session is removed, without acknowledgement. With a session on another
/// connection, or offline, that other connection is told to drop, the session
/// moves to the request's connection, and the request is acknowledged.
///
/// A request for a clean session gets a transient session with fresh state.
/// Any other gets a persistent session, with the state of the client's
/// persistent or offline session where there is one, and fresh state
/// otherwise; the acknowledgement says whether state was found.
pub open spec fn connect(
    sessions: Sessions,
    client: Seq<char>,
    req: ConnReqView,
    now: Instant,
) -> Outcome {
    let clean = req.connect.spec_clean_session();
    let prior: Option<SessionView> = if sessions.contains_key(client) {
        Some(sessions[client])
    } else {
        None
    };
    let bound: Option<ConnectionHandle> = match prior {
        Some(session) => session.handle(),
        None => None,
    };
    if bound == Some(req.handle) {
        Outcome {
            sessions: sessions.remove(client),
            deliveries: seq![deliver(req.handle, client, EventView::DropConnection)],
        }
    } else {
        let kept: Option<SessionStateView> = match prior {
            Some(session) => if clean {
                None
            } else {
                session.kept_state()
            },
            None => None,
        };
        let state = match kept {
            Some(state) => state.stamped(now),
            None => SessionStateView::fresh(client, req.connect.keep_alive, now),
        };
        let connected = ConnectedSessionView { state, handle: req.handle };
        let session = if clean {
            SessionView::Transient(connected)
        } else {
            SessionView::Persistent(connected)
        };
        let drops = match bound {
            Some(handle) => seq![deliver(handle, client, EventView::DropConnection)],
            None => Seq::<DeliveryView>::empty(),
        };
        Outcome {
            sessions: sessions.insert(client, session),
            deliveries: drops.push(deliver(req.handle, client, accepted(kept is Some))),
        }
    }
}

/// A graceful disconnect of `client` at `now`: the connection is sent a
/// DISCONNECT, then a transient session is removed and a persistent one goes
/// offline.
pub open spec fn disconnect(sessions: Sessions, client: Seq<char>, now: Instant) -> Outcome {
    if sessions.contains_key(client) {
        let session = sessions[client];
        Outcome {
            sessions: with_session(sessions, client, session.stamped(now).disconnected()),
            deliveries: at_most_one(session.delivery(EventView::Disconnect(proto::Disconnect))),
        }
    } else {
        Outcome { sessions, deliveries: Seq::<DeliveryView>::empty() }
    }
}

/// An abortive disconnect of `client`: nothing is sent, and the session is
/// retired.
pub open spec fn drop_connection(sessions: Sessions, client: Seq<char>) -> Outcome {
    if sessions.contains_key(client) {
        Outcome {
            sessions: with_session(sessions, client, sessions[client].retired()),
            deliveries: Seq::<DeliveryView>::empty(),
        }
    } else {
        Outcome { sessions, deliveries: Seq::<DeliveryView>::empty() }
    }
}

/// The end of the session of `client`: it is removed, and nothing is sent.
pub open spec fn close_session(sessions: Sessions, client: Seq<char>) -> Outcome {
    Outcome { sessions: sessions.remove(client), deliveries: Seq::<DeliveryView>::empty() }
}

/// A ping of `client` at `now`: the session answers on its connection and
/// notes the time.
pub open spec fn ping(sessions: Sessions, client: Seq<char>, now: Instant) -> Outcome {
    if sessions.contains_key(client) {
        let session = sessions[client];
        Outcome {
            sessions: sessions.insert(client, session.stamped(now)),
            deliveries: at_most_one(session.delivery(EventView::PingResp(proto::PingResp))),
        }
    } else {
        Outcome { sessions, deliveries: Seq::<DeliveryView>::empty() }
    }
}

/// A SUBSCRIBE of `client` at `now`: an online session takes the requests
/// and is sent the acknowledgement; any other session stays as it is and
/// nothing is sent.
pub open spec fn subscribe(
    sessions: Sessions,
    client: Seq<char>,
    request: proto::SubscribeView,
    now: Instant,
) -> Outcome {
    if sessions.contains_key(client) && sessions[client].is_online() {
        let session = sessions[client].subscribed(request.subscribe_to);
        let ack = EventView::SubAck(
            proto::SubAckView {
                packet_identifier: request.packet_identifier,
                qos: sub_acks(request.subscribe_to),
            },
        );
        Outcome {
            sessions: sessions.insert(client, session.stamped(now)),
            deliveries: at_most_one(session.delivery(ack)),
        }
    } else {
        Outcome { sessions, deliveries: Seq::<DeliveryView>::empty() }
    }
}

/// An UNSUBSCRIBE of `client` at `now`: an online session drops the filters
/// and is sent the acknowledgement; any other session stays as it is and
/// nothing is sent.
pub open spec fn unsubscribe(
    sessions: Sessions,
    client: Seq<char>,
    request: proto::UnsubscribeView,
    now: Instant,
) -> Outcome {
    if sessions.contains_key(client) && sessions[client].is_online() {
        let session = sessions[client].unsubscribed(request.unsubscribe_from);
        let ack = EventView::UnsubAck(
            proto::UnsubAck { packet_identifier: request.packet_identifier },
        );
        Outcome {
            sessions: sessions.insert(client, session.stamped(now)),
            deliveries: at_most_one(session.delivery(ack)),
        }
    } else {
        Outcome { sessions, deliveries: Seq::<DeliveryView>::empty() }
    }
}

/// One step of the broker: what `message`, taken at `now`, makes of the
/// session table, and what is to be delivered for it.
pub open spec fn step(sessions: Sessions, message: MessageView, now: Instant) -> Outcome {
    let client = message.client_id;
    match message.event {
        EventView::ConnReq(req) => connect(sessions, client, req, now),
        EventView::Disconnect(_) => disconnect(sessions, client, now),
        EventView::DropConnection => drop_connection(sessions, client),
        EventView::CloseSession => close_session(sessions, client),
        EventView::PingReq(_) => ping(sessions, client, now),
        EventView::Subscribe(request) => subscribe(sessions, client, request, now),
        EventView::Unsubscribe(request) => unsubscribe(sessions, client, request, now),
        EventView::ConnAck(_) | EventView::PingResp(_) | EventView::SubAck(_) | EventView::UnsubAck(
            _,
        ) | EventView::Unknown => Outcome { sessions, deliveries: Seq::<DeliveryView>::empty() },
    }
}

/// The table after a write to `handle` for `client` has failed: if the
/// client's session is still bound to that connection, it is retired;
/// otherwise nothing changes.
pub open spec fn send_failed(
    sessions: Sessions,
    client: Seq<char>,
    handle: ConnectionHandle,
) -> Sessions {
    if sessions.contains_key(client) && sessions[client].handle() == Some(handle) {
        with_session(sessions, client, sessions[client].retired())
    } else {
        sessions
    }
}

/// The session table after a list of messages, each taken at its own time,
/// one after the other.
pub open spec fn run(sessions: Sessions, messages: Seq<(MessageView, Instant)>) -> Sessions
    decreases messages.len(),
{
    if messages.len() == 0 {
        sessions
    } else {
        step(run(sessions, messages.drop_last()), messages.last().0, messages.last().1).sessions
    }
}

/// Every session is stored under the id of its own client.
pub open spec fn keyed_by_client(sessions: Sessions) -> bool {
    forall|client: Seq<char>| #[trigger]
        sessions.contains_key(client) ==> sessions[client].client_id() == client
}

/// The connection that the broker lets go of when the table goes from
/// `before` to `after`: the one that the session of `client` was bound to,
/// unless the session is still bound to it.
pub open spec fn released(before: Sessions, client: Seq<char>, after: Sessions) -> Option<
    ConnectionHandle,
> {
    match bound_to(before, client) {
        Some(handle) => if bound_to(after, client) == Some(handle) {
            None
        } else {
            Some(handle)
        },
        None => None,
    }
}

/// What is left to do after a step: the messages to write, in order, and
/// then the connection to let go of, if there is one.
pub struct ReactionView {
    pub deliveries: Seq<DeliveryView>,
    pub released: Option<ConnectionHandle>,
}

/// What is left to do after `message` was taken at `now`.
pub open spec fn react(sessions: Sessions, message: MessageView, now: Instant) -> ReactionView {
    ReactionView {
        deliveries: step(sessions, message, now).deliveries,
        released: released(sessions, message.client_id, step(sessions, message, now).sessions),
    }
}

/// Whether `after` and `reaction` are what `message` makes of `before` when
/// it is taken at some time.
pub open spec fn is_step(
    before: Sessions,
    message: MessageView,
    after: Sessions,
    reaction: ReactionView,
) -> bool {
    exists|now: Instant|
        (#[trigger] step(before, message, now)).sessions == after && react(before, message, now)
            == reaction
}

/// A step keeps every session under the id of its own client, and every
/// delivery of a step is about the client of the message.
pub proof fn lemma_step_keyed_by_client(sessions: Sessions, message: MessageView, now: Instant)
    requires
        keyed_by_client(sessions),
    ensures
        keyed_by_client(step(sessions, message, now).sessions),
        forall|i: int|
            0 <= i < step(sessions, message, now).deliveries.len() ==> (#[trigger] step(
                sessions,
                message,
                now,
            ).deliveries[i]).message.client_id == message.client_id,
        forall|client: Seq<char>|
            client != message.client_id ==> (step(sessions, message, now).sessions.contains_key(
                client,
            ) == sessions.contains_key(client) && (sessions.contains_key(client) ==> step(
                sessions,
                message,
                now,
            ).sessions[client] == sessions[client])),
{
}

/// Whatever messages arrive, in whatever order, a table that starts empty
/// holds each session under the id of its own client, and so at most one
/// session for any client id.
pub proof fn lemma_run_keyed_by_client(messages: Seq<(MessageView, Instant)>)
    ensures
        keyed_by_client(run(Map::<Seq<char>, SessionView>::empty(), messages)),
    decreases messages.len(),
{
    if messages.len() > 0 {
        lemma_run_keyed_by_client(messages.drop_last());
        lemma_step_keyed_by_client(
            run(Map::<Seq<char>, SessionView>::empty(), messages.drop_last()),
            messages.last().0,
            messages.last().1,
        );
    }
}

/// The connection that the session of `client` is bound to, if the client
/// has a session and the session is bound to a connection.
pub open spec fn bound_to(sessions: Sessions, client: Seq<char>) -> Option<ConnectionHandle> {
    if sessions.contains_key(client) {
        sessions[client].handle()
    } else {
        None
    }
}

/// The broker writes to no connection but those of the client's session:
/// every delivery of a step goes to the connection that the session was
/// bound to before the step or to the one that it is bound to after it.
pub proof fn lemma_writes_to_bound_connections(
    sessions: Sessions,
    message: MessageView,
    now: Instant,
)
    ensures
        forall|i: int|
            0 <= i < step(sessions, message, now).deliveries.len() ==> {
                let handle = Some((#[trigger] step(sessions, message, now).deliveries[i]).handle);
                handle == bound_to(sessions, message.client_id) || handle == bound_to(
                    step(sessions, message, now).sessions,
                    message.client_id,
                )
            },
{
}

/// No step takes a transient session offline: when its connection goes, its
/// state goes with it.
pub proof fn lemma_transient_never_goes_offline(
    sessions: Sessions,
    message: MessageView,
    now: Instant,
)
    requires
        sessions.contains_key(message.client_id),
        sessions[message.client_id] is Transient,
    ensures
        step(sessions, message, now).sessions.contains_key(message.client_id) ==> !(step(
            sessions,
            message,
            now,
        ).sessions[message.client_id] is Offline),
        send_failed(sessions, message.client_id, sessions[message.client_id].handle()->0)
            == sessions.remove(message.client_id),
{
}

/// What the caller of the broker is to do after a message was taken.
#[derive(Debug)]
pub struct Reaction {
    /// The messages to write, in this order, each with its connection.
    pub deliveries: Vec<Delivery>,
    /// The connection to let go of once the messages are written: the broker
    /// will not write to it again.
    pub released: Option<ConnectionHandle>,
}

impl View for Reaction {
    type V = ReactionView;

    open spec fn view(&self) -> ReactionView {
        ReactionView { deliveries: delivery_views(self.deliveries@), released: self.released }
    }
}

/// The broker: the session of each client, under the client's id.
#[derive(Debug)]
pub struct Broker {
    sessions: StringMap<Session>,
}

impl View for Broker {
    type V = Sessions;

    closed spec fn view(&self) -> Sessions {
        session_views(self.sessions@)
    }
}

impl Broker {
    /// No client id has two sessions, every session is well formed, and
    /// every session is stored under the id of its own client.
    pub closed spec fn wf(&self) -> bool {
        &&& self.sessions.wf()
        &&& forall|client: Seq<char>| #[trigger]
            self.sessions@.contains_key(client) ==> self.sessions@[client].wf()
                && self.sessions@[client]@.client_id() == client
    }

    /// The client ids of the stored sessions, in the order in which the
    /// sessions are stored.
    pub closed spec fn client_ids(&self) -> Seq<Seq<char>> {
        self.sessions.keys()
    }

    /// The table of a well-formed broker holds no client id twice: the list
    /// of stored client ids has no duplicates, it lists exactly the clients
    /// with a session, and each session belongs to the client it is stored
    /// for.
    pub proof fn lemma_one_session_per_client(&self)
        requires
            self.wf(),
        ensures
            self.client_ids().no_duplicates(),
            self.client_ids().to_set() == self@.dom(),
            self@.dom().finite(),
            self@.len() == self.client_ids().len(),
            keyed_by_client(self@),
    {
        self.sessions.lemma_dom();
        self.sessions.lemma_finite();
        assert(self@.dom() =~= self.sessions@.dom());
    }

    /// A broker without sessions.
    pub fn new() -> (broker: Broker)
        ensures
            broker.wf(),
            broker@ == Map::<Seq<char>, SessionView>::empty(),
    {
        let broker = Broker { sessions: StringMap::new() };
        assert(broker@ =~= Map::<Seq<char>, SessionView>::empty());
        broker
    }

    /// The number of sessions.
    pub fn len(&self) -> (count: usize)
        requires
            self.wf(),
        ensures
            self@.dom().finite(),
            count == self@.len(),
    {
        proof {
            assert(self@.dom() =~= self.sessions@.dom());
        }
        self.sessions.len()
    }

    /// The session of `client_id`, if the client has one.
    pub fn session(&self, client_id: &ClientId) -> (session: Option<&Session>)
        requires
            self.wf(),
        ensures
            match session {
                Some(s) => self@.contains_key(client_id@) && s@ == self@[client_id@] && s.wf(),
                None => !self@.contains_key(client_id@),
            },
    {
        self.sessions.get(client_id.as_string())
    }

    /// The connection that the session of `client_id` is bound to, if the
    /// client has a session and the session is bound to a connection.
    pub fn connection(&self, client_id: &ClientId) -> (handle: Option<ConnectionHandle>)
        requires
            self.wf(),
        ensures
            handle == bound_to(self@, client_id@),
    {
        match self.session(client_id) {
            Some(session) => session.handle(),
            None => None,
        }
    }

    /// Takes the session of `client_id` out of the table.
    fn take(&mut self, client_id: &ClientId) -> (session: Option<Session>)
        requires
            old(self).wf(),
        ensures
            final(self).wf(),
            final(self)@ == old(self)@.remove(client_id@),
            match session {
                Some(s) => old(self)@.contains_key(client_id@) && s@ == old(self)@[client_id@]
                    && s.wf() && s@.client_id() == client_id@,
                None => !old(self)@.contains_key(client_id@),
            },
    {
        let session = self.sessions.remove(client_id.as_string());
        proof {
            assert(session_views(old(self).sessions@.remove(client_id@)) =~= session_views(
                old(self).sessions@,
            ).remove(client_id@));
        }
        session
    }

    /// Puts `session` into the table, under the id of its client.
    fn put(&mut self, session: Session)
        requires
            old(self).wf(),
            session.wf(),
        ensures
            final(self).wf(),
            final(self)@ == old(self)@.insert(session@.client_id(), session@),
    {
        let key = session.client_id().as_string().clone();
        proof {
            assert(session_views(old(self).sessions@.insert(key@, session)) =~= session_views(
                old(self).sessions@,
            ).insert(key@, session@));
        }
        self.sessions.insert(key, session);
    }

    /// Puts back what is left of a session, if anything is.
    fn put_back(&mut self, session: Option<Session>)
        requires
            old(self).wf(),
            session matches Some(s) ==> s.wf(),
        ensures
            final(self).wf(),
            final(self)@ == (match session {
                Some(s) => old(self)@.insert(s@.client_id(), s@),
                None => old(self)@,
            }),
    {
        match session {
            Some(s) => self.put(s),
            None => {},
        }
    }

    /// Takes one message, with the clock read once for it: changes the
    /// session table and hands back what is to be written to which
    /// connection, in order, and which connection to let go of.
    pub fn handle_message(&mut self, message: Message) -> (reaction: Reaction)
        requires
            old(self).wf(),
        ensures
            final(self).wf(),
            is_step(old(self)@, message@, final(self)@, reaction@),
    {
        let now = clock::now();
        let reaction = self.handle_message_at(message, now);
        assert(step(old(self)@, message@, now).sessions == self@);
        reaction
    }

    /// Takes one message, with `now` as the reading of the clock: changes
    /// the session table and hands back what is to be written to which
    /// connection, in order, and which connection to let go of.
    pub fn handle_message_at(&mut self, message: Message, now: Instant) -> (reaction: Reaction)
        requires
            old(self).wf(),
        ensures
            final(self).wf(),
            final(self)@ == step(old(self)@, message@, now).sessions,
            reaction@ == react(old(self)@, message@, now),
            reaction.deliveries@.len() == step(old(self)@, message@, now).deliveries.len(),
    {
        let (client_id, event) = message.into_parts();
        let before = self.connection(&client_id);
        let deliveries = match event {
            Event::ConnReq(connreq) => self.handle_connect(&client_id, connreq, now),
            Event::Disconnect(_) => self.handle_disconnect(&client_id, now),
            Event::DropConnection => self.handle_drop_connection(&client_id),
            Event::CloseSession => self.handle_close_session(&client_id),
            Event::PingReq(ping) => self.handle_ping_req(&client_id, ping, now),
            Event::Subscribe(request) => self.handle_subscribe(&client_id, request, now),
            Event::Unsubscribe(request) => self.handle_unsubscribe(&client_id, request, now),
            Event::ConnAck(_) | Event::PingResp(_) | Event::SubAck(_) | Event::UnsubAck(_)
            | Event::Unknown => {
                let deliveries: Vec<Delivery> = Vec::new();
                assert(delivery_views(deliveries@) =~= Seq::<DeliveryView>::empty());
                deliveries
            },
        };
        assert(delivery_views(deliveries@).len() == deliveries@.len());
        let released = self.let_go(&client_id, before);
        Reaction { deliveries, released }
    }

    /// The connection that was bound before and is not bound any more.
    fn let_go(&self, client_id: &ClientId, before: Option<ConnectionHandle>) -> (released: Option<
        ConnectionHandle,
    >)
        requires
            self.wf(),
        ensures
            released == (match before {
                Some(handle) => if bound_to(self@, client_id@) == Some(handle) {
                    None
                } else {
                    Some(handle)
                },
                None => None,
            }),
    {
        match before {
            Some(handle) => match self.connection(client_id) {
                Some(current) => if current == handle {
                    None
                } else {
                    Some(handle)
                },
                None => Some(handle),
            },
            None => None,
        }
    }

    /// A connect request of `client_id`.
    fn handle_connect(
        &mut self,
        client_id: &ClientId,
        connreq: ConnReq,
        now: Instant,
    ) -> (deliveries: Vec<Delivery>)
        requires
            old(self).wf(),
        ensures
            final(self).wf(),
            final(self)@ == connect(old(self)@, client_id@, connreq@, now).sessions,
            delivery_views(deliveries@) == connect(
                old(self)@,
                client_id@,
                connreq@,
                now,
            ).deliveries,
    {
        let mut deliveries: Vec<Delivery> = Vec::new();
        let handle = *connreq.handle();
        let clean = connreq.connect().clean_session();
        let prior = self.take(client_id);
        let mut kept: Option<SessionState> = None;
        match prior {
            Some(session) => {
                let bound = session.handle();
                match bound {
                    Some(current) => {
                        // [MQTT-3.1.4-2] A client that is already connected is
                        // disconnected when its client id connects again.
                        let message = Message::new(client_id.clone(), Event::DropConnection);
                        deliveries.push(Delivery::new(current, message));
                        if current == handle {
                            // [MQTT-3.1.0-2] A second CONNECT on one connection is
                            // a protocol violation: the session is not put back.
                            assert(delivery_views(deliveries@) =~= seq![
                                deliver(handle, client_id@, EventView::DropConnection),
                            ]);
                            return deliveries;
                        }
                    },
                    None => {},
                }
                if !clean {
                    kept = match session {
                        Session::Persistent(connected) => Some(connected.into_parts().0),
                        Session::Offline(offline) => Some(offline.into_state()),
                        _ => None,
                    };
                }
            },
            None => {},
        }
        // [MQTT-3.2.2-2] Session present is reported only where stored state
        // was found and kept.
        let session_present = kept.is_some();
        let state = match kept {
            Some(mut state) => {
                state.touch(now);
                state
            },
            None => SessionState::new_at(client_id.clone(), &connreq, now),
        };
        let connected = ConnectedSession::new(state, handle);
        let session = if clean {
            Session::Transient(connected)
        } else {
            Session::Persistent(connected)
        };
        let ack = proto::ConnAck {
            session_present,
            return_code: proto::ConnectReturnCode::Accepted,
        };
        let ghost drops = delivery_views(deliveries@);
        deliveries.push(Delivery::new(handle, Message::new(client_id.clone(), Event::ConnAck(ack))));
        self.put(session);
        proof {
            let expected = connect(old(self)@, client_id@, connreq@, now);
            assert(old(self)@.remove(client_id@).insert(client_id@, session@) =~= old(
                self,
            )@.insert(client_id@, session@));
            assert(delivery_views(deliveries@) =~= drops.push(
                deliver(handle, client_id@, accepted(session_present)),
            ));
            assert(delivery_views(deliveries@) =~= expected.deliveries);
        }
        deliveries
    }

    /// Puts `delivery` at the end of `deliveries` if there is one.
    fn push_delivery(deliveries: &mut Vec<Delivery>, delivery: Result<Delivery, crate::Error>)
        ensures
            delivery_views(final(deliveries)@) == delivery_views(old(deliveries)@) + at_most_one(
                match delivery {
                    Ok(out) => Some(out@),
                    Err(_) => None,
                },
            ),
    {
        match delivery {
            Ok(out) => {
                let ghost view = out@;
                deliveries.push(out);
                assert(delivery_views(deliveries@) =~= delivery_views(old(deliveries)@) + seq![
                    view,
                ]);
            },
            Err(_) => {
                assert(delivery_views(deliveries@) =~= delivery_views(old(deliveries)@)
                    + Seq::<DeliveryView>::empty());
            },
        }
    }

    /// A graceful disconnect of `client_id`.
    fn handle_disconnect(&mut self, client_id: &ClientId, now: Instant) -> (deliveries: Vec<
        Delivery,
    >)
        requires
            old(self).wf(),
        ensures
            final(self).wf(),
            final(self)@ == disconnect(old(self)@, client_id@, now).sessions,
            delivery_views(deliveries@) == disconnect(old(self)@, client_id@, now).deliveries,
    {
        let mut deliveries: Vec<Delivery> = Vec::new();
        assert(delivery_views(deliveries@) =~= Seq::<DeliveryView>::empty());
        match self.take(client_id) {
            Some(mut session) => {
                let sent = session.send_at(Event::Disconnect(proto::Disconnect), now);
                Self::push_delivery(&mut deliveries, sent);
                let left = match session {
                    Session::Transient(_) => None,
                    Session::Persistent(connected) => Some(
                        Session::new_offline(connected.into_parts().0),
                    ),
                    other => Some(other),
                };
                self.put_back(left);
                proof {
                    let expected = disconnect(old(self)@, client_id@, now);
                    assert(self@ =~= expected.sessions);
                    assert(delivery_views(deliveries@) =~= expected.deliveries);
                }
            },
            None => {
                assert(self@ =~= old(self)@);
            },
        }
        deliveries
    }

    /// An abortive disconnect of `client_id`.
    fn handle_drop_connection(&mut self, client_id: &ClientId) -> (deliveries: Vec<Delivery>)
        requires
            old(self).wf(),
        ensures
            final(self).wf(),
            final(self)@ == drop_connection(old(self)@, client_id@).sessions,
            delivery_views(deliveries@) == drop_connection(old(self)@, client_id@).deliveries,
    {
        let deliveries: Vec<Delivery> = Vec::new();
        assert(delivery_views(deliveries@) =~= Seq::<DeliveryView>::empty());
        match self.take(client_id) {
            Some(session) => {
                let left = Self::retire(session);
                self.put_back(left);
                proof {
                    assert(self@ =~= drop_connection(old(self)@, client_id@).sessions);
                }
            },
            None => {
                assert(self@ =~= old(self)@);
            },
        }
        deliveries
    }

    /// What is left of a session when its connection goes.
    fn retire(session: Session) -> (left: Option<Session>)
        requires
            session.wf(),
        ensures
            left matches Some(s) ==> s.wf(),
            match left {
                Some(s) => session@.retired() == Some(s@),
                None => session@.retired() is None,
            },
    {
        match session {
            Session::Transient(_) => None,
            Session::Persistent(connected) => Some(Session::new_offline(connected.into_parts().0)),
            Session::Offline(offline) => Some(Session::Offline(offline)),
            Session::Disconnecting(_, _) => None,
        }
    }

    /// The end of the session of `client_id`.
    fn handle_close_session(&mut self, client_id: &ClientId) -> (deliveries: Vec<Delivery>)
        requires
            old(self).wf(),
        ensures
            final(self).wf(),
            final(self)@ == close_session(old(self)@, client_id@).sessions,
            delivery_views(deliveries@) == close_session(old(self)@, client_id@).deliveries,
    {
        let deliveries: Vec<Delivery> = Vec::new();
        assert(delivery_views(deliveries@) =~= Seq::<DeliveryView>::empty());
        self.take(client_id);
        deliveries
    }

    /// A ping of `client_id`.
    fn handle_ping_req(
        &mut self,
        client_id: &ClientId,
        _ping: proto::PingReq,
        now: Instant,
    ) -> (deliveries: Vec<Delivery>)
        requires
            old(self).wf(),
        ensures
            final(self).wf(),
            final(self)@ == ping(old(self)@, client_id@, now).sessions,
            delivery_views(deliveries@) == ping(old(self)@, client_id@, now).deliveries,
    {
        let mut deliveries: Vec<Delivery> = Vec::new();
        assert(delivery_views(deliveries@) =~= Seq::<DeliveryView>::empty());
        match self.take(client_id) {
            Some(mut session) => {
                let sent = session.send_at(Event::PingResp(proto::PingResp), now);
                Self::push_delivery(&mut deliveries, sent);
                self.put(session);
                proof {
                    let expected = ping(old(self)@, client_id@, now);
                    assert(self@ =~= expected.sessions);
                    assert(delivery_views(deliveries@) =~= expected.deliveries);
                }
            },
            None => {
                assert(self@ =~= old(self)@);
            },
        }
        deliveries
    }

    /// A SUBSCRIBE of `client_id`.
    fn handle_subscribe(
        &mut self,
        client_id: &ClientId,
        request: proto::Subscribe,
        now: Instant,
    ) -> (deliveries: Vec<Delivery>)
        requires
            old(self).wf(),
        ensures
            final(self).wf(),
            final(self)@ == subscribe(old(self)@, client_id@, request@, now).sessions,
            delivery_views(deliveries@) == subscribe(
                old(self)@,
                client_id@,
                request@,
                now,
            ).deliveries,
    {
        let mut deliveries: Vec<Delivery> = Vec::new();
        assert(delivery_views(deliveries@) =~= Seq::<DeliveryView>::empty());
        match self.take(client_id) {
            Some(mut session) => {
                match session.subscribe(request) {
                    Ok(ack) => {
                        let sent = session.send_at(Event::SubAck(ack), now);
                        Self::push_delivery(&mut deliveries, sent);
                    },
                    Err(_) => {},
                }
                self.put(session);
                proof {
                    let expected = subscribe(old(self)@, client_id@, request@, now);
                    assert(self@ =~= expected.sessions);
                    assert(delivery_views(deliveries@) =~= expected.deliveries);
                }
            },
            None => {
                assert(self@ =~= old(self)@);
            },
        }
        deliveries
    }

    /// An UNSUBSCRIBE of `client_id`.
    fn handle_unsubscribe(
        &mut self,
        client_id: &ClientId,
        request: proto::Unsubscribe,
        now: Instant,
    ) -> (deliveries: Vec<Delivery>)
        requires
            old(self).wf(),
        ensures
            final(self).wf(),
            final(self)@ == unsubscribe(old(self)@, client_id@, request@, now).sessions,
            delivery_views(deliveries@) == unsubscribe(
                old(self)@,
                client_id@,
                request@,
                now,
            ).deliveries,
    {
        let mut deliveries: Vec<Delivery> = Vec::new();
        assert(delivery_views(deliveries@) =~= Seq::<DeliveryView>::empty());
        match self.take(client_id) {
            Some(mut session) => {
                match session.unsubscribe(request) {
                    Ok(ack) => {
                        let sent = session.send_at(Event::UnsubAck(ack), now);
                        Self::push_delivery(&mut deliveries, sent);
                    },
                    Err(_) => {},
                }
                self.put(session);
                proof {
                    let expected = unsubscribe(old(self)@, client_id@, request@, now);
                    assert(self@ =~= expected.sessions);
                    assert(delivery_views(deliveries@) =~= expected.deliveries);
                }
            },
            None => {
                assert(self@ =~= old(self)@);
            },
        }
        deliveries
    }

    /// Takes note that a write to `handle` for `client_id` has failed: the
    /// connection is gone. If the client's session is still bound to that
    /// connection, a persistent session goes offline, any other is removed,
    /// and the connection is handed back as one to let go of; a session that
    /// has moved on to another connection, or is offline already, stays as
    /// it is.
    pub fn handle_send_failure(&mut self, client_id: &ClientId, handle: &ConnectionHandle) -> (gone:
        Option<ConnectionHandle>)
        requires
            old(self).wf(),
        ensures
            final(self).wf(),
            final(self)@ == send_failed(old(self)@, client_id@, *handle),
            gone == released(old(self)@, client_id@, final(self)@),
    {
        let before = self.connection(client_id);
        match self.take(client_id) {
            Some(session) => {
                let left = match session.handle() {
                    Some(current) => if current == *handle {
                        Self::retire(session)
                    } else {
                        Some(session)
                    },
                    None => Some(session),
                };
                self.put_back(left);
                proof {
                    assert(self@ =~= send_failed(old(self)@, client_id@, *handle));
                }
            },
            None => {
                assert(self@ =~= old(self)@);
            },
        }
        self.let_go(client_id, before)
    }
}

impl Default for Broker {
    fn default() -> (broker: Broker)
        ensures
            broker.wf(),
            broker@ == Map::<Seq<char>, SessionView>::empty(),
    {
        Broker::new()
    }
}

} // verus!
