//! Sessions: what the broker keeps for each client, online or not.

use crate::clock;
use crate::error::{Error, ErrorKind};
use crate::proto;
use crate::proto::{SubAckQos, SubscribeToView};
use crate::string_map::StringMap;
use crate::subscription::{
    segments_of, valid_topic_filter, Subscription, SubscriptionView, TopicFilter,
};
use crate::{
    ClientId, ConnReq, ConnectionHandle, Delivery, DeliveryView, Event, EventView, Message,
    MessageView,
};
use std::time::{Duration, Instant};
use vstd::prelude::*;

verus! {

/// A subscription table: the subscriptions of a session, each under the
/// text of its topic filter.
pub type Subscriptions = Map<Seq<char>, SubscriptionView>;

/// The subscription that a well-formed request sets up.
pub open spec fn subscription_of(request: SubscribeToView) -> SubscriptionView {
    SubscriptionView { filter: segments_of(request.topic_filter), max_qos: request.qos }
}

/// The subscription table after a list of requests, taken in order. A
/// request with a well-formed filter puts its subscription under the filter's
/// text, in place of what was there; any other request changes nothing.
pub open spec fn subscribed(
    subscriptions: Subscriptions,
    requests: Seq<SubscribeToView>,
) -> Subscriptions
    decreases requests.len(),
{
    if requests.len() == 0 {
        subscriptions
    } else {
        let before = subscribed(subscriptions, requests.drop_last());
        let request = requests.last();
        if valid_topic_filter(request.topic_filter) {
            before.insert(request.topic_filter, subscription_of(request))
        } else {
            before
        }
    }
}

/// The acknowledgement of one request: success at the requested quality of
/// service when the filter is well formed, failure otherwise.
pub open spec fn sub_ack_of(request: SubscribeToView) -> SubAckQos {
    if valid_topic_filter(request.topic_filter) {
        SubAckQos::Success(request.qos)
    } else {
        SubAckQos::Failure
    }
}

/// The acknowledgements of a list of requests, in the order of the requests.
pub open spec fn sub_acks(requests: Seq<SubscribeToView>) -> Seq<SubAckQos> {
    requests.map_values(|request: SubscribeToView| sub_ack_of(request))
}

/// The subscription table without the given filters.
pub open spec fn unsubscribed(
    subscriptions: Subscriptions,
    filters: Seq<Seq<char>>,
) -> Subscriptions {
    subscriptions.remove_keys(filters.to_set())
}

/// The last request of the list that has a well-formed filter with the text
/// `filter`, if there is one.
pub open spec fn last_request_for(requests: Seq<SubscribeToView>, filter: Seq<char>) -> Option<
    SubscribeToView,
>
    decreases requests.len(),
{
    if requests.len() == 0 {
        None
    } else if valid_topic_filter(requests.last().topic_filter) && requests.last().topic_filter
        == filter {
        Some(requests.last())
    } else {
        last_request_for(requests.drop_last(), filter)
    }
}

/// The subscription table after the same list of requests was taken `times`
/// times over.
pub open spec fn subscribed_repeatedly(
    subscriptions: Subscriptions,
    requests: Seq<SubscribeToView>,
    times: nat,
) -> Subscriptions
    decreases times,
{
    if times == 0 {
        subscriptions
    } else {
        subscribed(subscribed_repeatedly(subscriptions, requests, (times - 1) as nat), requests)
    }
}

/// After a list of requests, a filter holds the subscription of the last
/// well-formed request for it; a filter without such a request holds what
/// it held before.
pub proof fn lemma_last_writer_wins(
    subscriptions: Subscriptions,
    requests: Seq<SubscribeToView>,
    filter: Seq<char>,
)
    ensures
        subscribed(subscriptions, requests).contains_key(filter) <==> subscriptions.contains_key(
            filter,
        ) || last_request_for(requests, filter) is Some,
        subscribed(subscriptions, requests).contains_key(filter) ==> subscribed(
            subscriptions,
            requests,
        )[filter] == (match last_request_for(requests, filter) {
            Some(request) => subscription_of(request),
            None => subscriptions[filter],
        }),
    decreases requests.len(),
{
    if requests.len() > 0 {
        lemma_last_writer_wins(subscriptions, requests.drop_last(), filter);
    }
}

/// Subscribing is idempotent: taking the same requests a second time leaves
/// the table as the first time left it.
pub proof fn lemma_subscribe_idempotent(
    subscriptions: Subscriptions,
    requests: Seq<SubscribeToView>,
)
    ensures
        subscribed(subscribed(subscriptions, requests), requests) == subscribed(
            subscriptions,
            requests,
        ),
{
    let once = subscribed(subscriptions, requests);
    let twice = subscribed(once, requests);
    assert forall|filter: Seq<char>| #[trigger]
        twice.contains_key(filter) == once.contains_key(filter) && (once.contains_key(filter)
            ==> twice[filter] == once[filter]) by {
        lemma_last_writer_wins(subscriptions, requests, filter);
        lemma_last_writer_wins(once, requests, filter);
    }
    assert(twice =~= once);
}

/// However often the same requests are taken, the table is as after taking
/// them once.
pub proof fn lemma_subscribe_repeatedly(
    subscriptions: Subscriptions,
    requests: Seq<SubscribeToView>,
    times: nat,
)
    requires
        times >= 1,
    ensures
        subscribed_repeatedly(subscriptions, requests, times) == subscribed(
            subscriptions,
            requests,
        ),
    decreases times,
{
    if times > 1 {
        lemma_subscribe_repeatedly(subscriptions, requests, (times - 1) as nat);
        lemma_subscribe_idempotent(subscriptions, requests);
    } else {
        assert(subscribed_repeatedly(subscriptions, requests, 0) == subscriptions);
    }
}

/// Subscribing any number of times to one well-formed filter at one quality
/// of service leaves exactly one subscription under that filter, at that
/// quality of service, and every other filter as it was.
pub proof fn lemma_subscribe_same_filter(
    subscriptions: Subscriptions,
    request: SubscribeToView,
    times: nat,
)
    requires
        times >= 1,
        valid_topic_filter(request.topic_filter),
    ensures
        subscribed_repeatedly(subscriptions, seq![request], times) == subscriptions.insert(
            request.topic_filter,
            subscription_of(request),
        ),
        subscribed_repeatedly(subscriptions, seq![request], times)[request.topic_filter].max_qos
            == request.qos,
{
    lemma_subscribe_repeatedly(subscriptions, seq![request], times);
    let requests = seq![request];
    assert(requests.drop_last() =~= Seq::<SubscribeToView>::empty());
    assert(subscribed(subscriptions, requests.drop_last()) == subscriptions);
    assert(requests.last() == request);
}

/// The first `i + 1` filters are, as a set, the first `i` and filter `i`.
proof fn lemma_take_one_more(filters: Seq<Seq<char>>, i: int)
    requires
        0 <= i < filters.len(),
    ensures
        filters.take(i + 1).to_set() == filters.take(i).to_set().insert(filters[i]),
{
    let longer = filters.take(i + 1);
    let shorter = filters.take(i);
    assert forall|k: Seq<char>| longer.to_set().contains(k) implies shorter.to_set().insert(
        filters[i],
    ).contains(k) by {
        let j = choose|j: int| 0 <= j < longer.len() && longer[j] == k;
        if j < i {
            assert(shorter[j] == k);
        }
    }
    assert forall|k: Seq<char>|
        shorter.to_set().insert(filters[i]).contains(k) implies longer.to_set().contains(k) by {
        if k == filters[i] {
            assert(longer[i] == k);
        } else {
            let j = choose|j: int| 0 <= j < shorter.len() && shorter[j] == k;
            assert(longer[j] == k);
        }
    }
    assert(longer.to_set() =~= shorter.to_set().insert(filters[i]));
}

/// Unsubscribing from filters that have no subscription changes nothing.
pub proof fn lemma_unsubscribe_unknown(
    subscriptions: Subscriptions,
    filters: Seq<Seq<char>>,
)
    requires
        forall|i: int|
            0 <= i < filters.len() ==> !subscriptions.contains_key(#[trigger] filters[i]),
    ensures
        unsubscribed(subscriptions, filters) == subscriptions,
{
    assert forall|filter: Seq<char>|
        subscriptions.contains_key(filter) implies !filters.to_set().contains(filter) by {
        if filters.to_set().contains(filter) {
            let i = choose|i: int| 0 <= i < filters.len() && filters[i] == filter;
            assert(!subscriptions.contains_key(filters[i]));
        }
    }
    assert(unsubscribed(subscriptions, filters) =~= subscriptions);
}

/// Unsubscribing removes exactly the subscriptions under the given filters.
pub proof fn lemma_unsubscribe_removes(
    subscriptions: Subscriptions,
    filters: Seq<Seq<char>>,
    filter: Seq<char>,
)
    ensures
        unsubscribed(subscriptions, filters).contains_key(filter) <==> subscriptions.contains_key(
            filter,
        ) && !filters.contains(filter),
        unsubscribed(subscriptions, filters).contains_key(filter) ==> unsubscribed(
            subscriptions,
            filters,
        )[filter] == subscriptions[filter],
{
}

/// The mathematical content of a table of subscriptions.
pub open spec fn subscription_views(subscriptions: Map<Seq<char>, Subscription>) -> Subscriptions {
    subscriptions.map_values(|s: Subscription| s@)
}

/// What the broker knows of a client whether it is online or not.
#[derive(Debug)]
pub struct SessionState {
    client_id: ClientId,
    keep_alive: Duration,
    last_active: Instant,
    subscriptions: StringMap<Subscription>,
}

/// The mathematical content of a [`SessionState`].
pub struct SessionStateView {
    pub client_id: Seq<char>,
    pub keep_alive: Duration,
    pub last_active: Instant,
    /// The subscriptions, each under the text of its topic filter.
    pub subscriptions: Subscriptions,
}

impl SessionStateView {
    /// The state of a session that starts at `now` with no subscription.
    pub open spec fn fresh(client_id: Seq<char>, keep_alive: Duration, now: Instant) -> Self {
        SessionStateView {
            client_id,
            keep_alive,
            last_active: now,
            subscriptions: Map::<Seq<char>, SubscriptionView>::empty(),
        }
    }

    /// The state with `now` as the time of the last activity.
    pub open spec fn stamped(self, now: Instant) -> Self {
        SessionStateView { last_active: now, ..self }
    }

    /// The state with another subscription table.
    pub open spec fn with_subscriptions(
        self,
        subscriptions: Subscriptions,
    ) -> Self {
        SessionStateView { subscriptions, ..self }
    }
}

impl View for SessionState {
    type V = SessionStateView;

    closed spec fn view(&self) -> SessionStateView {
        SessionStateView {
            client_id: self.client_id@,
            keep_alive: self.keep_alive,
            last_active: self.last_active,
            subscriptions: subscription_views(self.subscriptions@),
        }
    }
}

impl SessionState {
    /// The subscription table holds each filter once.
    pub closed spec fn wf(&self) -> bool {
        self.subscriptions.wf()
    }

    /// The state of a session that starts now, for the client `client_id`
    /// with the keep-alive of `connreq`, and without subscriptions.
    pub fn new(client_id: ClientId, connreq: &ConnReq) -> (state: SessionState)
        ensures
            state.wf(),
            state@ == SessionStateView::fresh(
                client_id@,
                connreq@.connect.keep_alive,
                state@.last_active,
            ),
    {
        let now = clock::now();
        SessionState::new_at(client_id, connreq, now)
    }

    /// The state of a session that starts at `now`, for the client
    /// `client_id` with the keep-alive of `connreq`, and without
    /// subscriptions.
    pub fn new_at(client_id: ClientId, connreq: &ConnReq, now: Instant) -> (state: SessionState)
        ensures
            state.wf(),
            state@ == SessionStateView::fresh(client_id@, connreq@.connect.keep_alive, now),
    {
        let state = SessionState {
            client_id,
            keep_alive: connreq.connect().keep_alive,
            last_active: now,
            subscriptions: StringMap::new(),
        };
        assert(state@.subscriptions =~= Map::<Seq<char>, SubscriptionView>::empty());
        state
    }

    /// The client that the state belongs to.
    pub fn client_id(&self) -> (client_id: &ClientId)
        ensures
            client_id@ == self@.client_id,
    {
        &self.client_id
    }

    /// The keep-alive interval that the client asked for.
    pub fn keep_alive(&self) -> (keep_alive: Duration)
        ensures
            keep_alive == self@.keep_alive,
    {
        self.keep_alive
    }

    /// When something was last sent to the client.
    pub fn last_active(&self) -> (last_active: Instant)
        ensures
            last_active == self@.last_active,
    {
        self.last_active
    }

    /// The number of subscriptions.
    pub fn subscription_count(&self) -> (count: usize)
        requires
            self.wf(),
        ensures
            self@.subscriptions.dom().finite(),
            count == self@.subscriptions.len(),
    {
        proof {
            assert(self@.subscriptions.dom() =~= self.subscriptions@.dom());
        }
        self.subscriptions.len()
    }

    /// The subscription under the filter with the given text, if there is
    /// one.
    pub fn subscription(&self, topic_filter: &String) -> (subscription: Option<&Subscription>)
        requires
            self.wf(),
        ensures
            match subscription {
                Some(s) => self@.subscriptions.contains_key(topic_filter@)
                    && s@ == self@.subscriptions[topic_filter@],
                None => !self@.subscriptions.contains_key(topic_filter@),
            },
    {
        self.subscriptions.get(topic_filter)
    }

    /// Puts `subscription` under `topic_filter`, in place of the subscription
    /// that was there, which is handed back.
    pub fn update_subscription(
        &mut self,
        topic_filter: String,
        subscription: Subscription,
    ) -> (previous: Option<Subscription>)
        requires
            old(self).wf(),
        ensures
            final(self).wf(),
            final(self)@ == old(self)@.with_subscriptions(
                old(self)@.subscriptions.insert(topic_filter@, subscription@),
            ),
            match previous {
                Some(p) => old(self)@.subscriptions.contains_key(topic_filter@) && p@ == old(
                    self,
                )@.subscriptions[topic_filter@],
                None => !old(self)@.subscriptions.contains_key(topic_filter@),
            },
    {
        let ghost key = topic_filter@;
        let previous = self.subscriptions.insert(topic_filter, subscription);
        proof {
            assert(subscription_views(old(self).subscriptions@.insert(key, subscription))
                =~= subscription_views(old(self).subscriptions@).insert(key, subscription@));
        }
        previous
    }

    /// Removes the subscription under `topic_filter` and hands it back. A
    /// filter without a subscription leaves the table as it is.
    pub fn remove_subscription(&mut self, topic_filter: &String) -> (removed: Option<Subscription>)
        requires
            old(self).wf(),
        ensures
            final(self).wf(),
            final(self)@ == old(self)@.with_subscriptions(
                old(self)@.subscriptions.remove(topic_filter@),
            ),
            match removed {
                Some(r) => old(self)@.subscriptions.contains_key(topic_filter@) && r@ == old(
                    self,
                )@.subscriptions[topic_filter@],
                None => !old(self)@.subscriptions.contains_key(topic_filter@),
            },
    {
        let removed = self.subscriptions.remove(topic_filter);
        proof {
            assert(subscription_views(old(self).subscriptions@.remove(topic_filter@))
                =~= subscription_views(old(self).subscriptions@).remove(topic_filter@));
        }
        removed
    }

    /// Records `now` as the time of the last activity.
    pub fn touch(&mut self, now: Instant)
        requires
            old(self).wf(),
        ensures
            final(self).wf(),
            final(self)@ == old(self)@.stamped(now),
    {
        self.last_active = now;
    }
}

/// A session whose client is connected.
#[derive(Debug)]
pub struct ConnectedSession {
    state: SessionState,
    handle: ConnectionHandle,
}

/// The mathematical content of a [`ConnectedSession`].
pub struct ConnectedSessionView {
    pub state: SessionStateView,
    pub handle: ConnectionHandle,
}

impl ConnectedSessionView {
    /// The message that carries `event` to the session's client.
    pub open spec fn delivery(self, event: EventView) -> DeliveryView {
        DeliveryView {
            handle: self.handle,
            message: MessageView { client_id: self.state.client_id, event },
        }
    }

    /// The session after something was sent at `now`.
    pub open spec fn stamped(self, now: Instant) -> Self {
        ConnectedSessionView { state: self.state.stamped(now), ..self }
    }

    /// The session after the requests of a SUBSCRIBE packet.
    pub open spec fn subscribed(self, requests: Seq<SubscribeToView>) -> Self {
        ConnectedSessionView {
            state: self.state.with_subscriptions(
                crate::session::subscribed(self.state.subscriptions, requests),
            ),
            ..self
        }
    }

    /// The session after the filters of an UNSUBSCRIBE packet were removed.
    pub open spec fn unsubscribed(self, filters: Seq<Seq<char>>) -> Self {
        ConnectedSessionView {
            state: self.state.with_subscriptions(
                crate::session::unsubscribed(self.state.subscriptions, filters),
            ),
            ..self
        }
    }
}

impl View for ConnectedSession {
    type V = ConnectedSessionView;

    closed spec fn view(&self) -> ConnectedSessionView {
        ConnectedSessionView { state: self.state@, handle: self.handle }
    }
}

impl ConnectedSession {
    /// The state is well formed.
    pub closed spec fn wf(&self) -> bool {
        self.state.wf()
    }

    /// The session with the given state, bound to the given connection.
    pub fn new(state: SessionState, handle: ConnectionHandle) -> (session: ConnectedSession)
        requires
            state.wf(),
        ensures
            session.wf(),
            session@ == (ConnectedSessionView { state: state@, handle }),
    {
        ConnectedSession { state, handle }
    }

    /// The connection that the session is bound to.
    pub fn handle(&self) -> (handle: &ConnectionHandle)
        ensures
            *handle == self@.handle,
    {
        &self.handle
    }

    /// The state of the session.
    pub fn state(&self) -> (state: &SessionState)
        ensures
            state@ == self@.state,
            self.wf() ==> state.wf(),
    {
        &self.state
    }

    /// The connection that the session is bound to, by value.
    pub fn into_handle(self) -> (handle: ConnectionHandle)
        ensures
            handle == self@.handle,
    {
        self.handle
    }

    /// The state and the connection, both by value.
    pub fn into_parts(self) -> (parts: (SessionState, ConnectionHandle))
        ensures
            parts.0@ == self@.state,
            parts.1 == self@.handle,
            self.wf() ==> parts.0.wf(),
    {
        (self.state, self.handle)
    }

    /// Takes the requests of a SUBSCRIBE packet in order. A request whose
    /// filter parses replaces the subscription under that filter and is
    /// acknowledged with its quality of service; one whose filter does not
    /// parse changes nothing and is acknowledged as a failure. The
    /// acknowledgement carries the packet identifier of the request.
    pub fn subscribe(&mut self, subscribe: proto::Subscribe) -> (ack: Result<proto::SubAck, Error>)
        requires
            old(self).wf(),
        ensures
            final(self).wf(),
            final(self)@ == old(self)@.subscribed(subscribe@.subscribe_to),
            ack matches Ok(suback) && suback@ == (proto::SubAckView {
                packet_identifier: subscribe.packet_identifier,
                qos: sub_acks(subscribe@.subscribe_to),
            }),
    {
        let ghost requests = subscribe@.subscribe_to;
        let count = subscribe.subscribe_to.len();
        let mut acks: Vec<SubAckQos> = Vec::with_capacity(count);
        let packet_identifier = subscribe.packet_identifier;
        let mut i: usize = 0;
        assert(requests.take(0) =~= Seq::<SubscribeToView>::empty());
        while i < count
            invariant
                i <= count,
                count == subscribe.subscribe_to@.len(),
                requests == subscribe@.subscribe_to,
                self.wf(),
                self@ == old(self)@.subscribed(requests.take(i as int)),
                acks@ == sub_acks(requests.take(i as int)),
            decreases count - i,
        {
            let subscribe_to = &subscribe.subscribe_to[i];
            proof {
                assert(requests.take(i + 1).drop_last() =~= requests.take(i as int));
                assert(requests.take(i + 1).last() == subscribe_to@);
                assert(sub_acks(requests.take(i + 1)) =~= sub_acks(requests.take(i as int)).push(
                    sub_ack_of(subscribe_to@),
                ));
            }
            let ack_qos = match TopicFilter::parse(subscribe_to.topic_filter.as_str()) {
                Ok(filter) => {
                    let subscription = Subscription::new(filter, subscribe_to.qos);
                    self.state.update_subscription(subscribe_to.topic_filter.clone(), subscription);
                    SubAckQos::Success(subscribe_to.qos)
                },
                Err(_) => SubAckQos::Failure,
            };
            acks.push(ack_qos);
            i += 1;
        }
        assert(requests.take(count as int) =~= requests);
        Ok(proto::SubAck { packet_identifier, qos: acks })
    }

    /// Removes the subscriptions under the filters of an UNSUBSCRIBE packet;
    /// a filter without a subscription is passed over. The acknowledgement
    /// carries the packet identifier of the request.
    pub fn unsubscribe(&mut self, unsubscribe: proto::Unsubscribe) -> (ack: Result<
        proto::UnsubAck,
        Error,
    >)
        requires
            old(self).wf(),
        ensures
            final(self).wf(),
            final(self)@ == old(self)@.unsubscribed(unsubscribe@.unsubscribe_from),
            (forall|i: int|
                0 <= i < unsubscribe@.unsubscribe_from.len() ==> !old(
                    self,
                )@.state.subscriptions.contains_key(#[trigger] unsubscribe@.unsubscribe_from[i]))
                ==> final(self)@ == old(self)@,
            ack matches Ok(unsuback) && unsuback == (proto::UnsubAck {
                packet_identifier: unsubscribe.packet_identifier,
            }),
    {
        let ghost filters = unsubscribe@.unsubscribe_from;
        let count = unsubscribe.unsubscribe_from.len();
        let mut i: usize = 0;
        assert(filters.take(0).to_set() =~= Set::<Seq<char>>::empty());
        assert(self@.state.subscriptions.remove_keys(Set::<Seq<char>>::empty())
            =~= self@.state.subscriptions);
        while i < count
            invariant
                i <= count,
                count == unsubscribe.unsubscribe_from@.len(),
                filters == unsubscribe@.unsubscribe_from,
                self.wf(),
                self@ == old(self)@.unsubscribed(filters.take(i as int)),
            decreases count - i,
        {
            let filter = &unsubscribe.unsubscribe_from[i];
            self.state.remove_subscription(filter);
            proof {
                assert(filters[i as int] == filter@);
                lemma_take_one_more(filters, i as int);
                assert(old(self)@.state.subscriptions.remove_keys(
                    filters.take(i as int).to_set(),
                ).remove(filter@) =~= old(self)@.state.subscriptions.remove_keys(
                    filters.take(i + 1).to_set(),
                ));
            }
            i += 1;
        }
        proof {
            assert(filters.take(count as int) =~= filters);
            if forall|i: int|
                0 <= i < filters.len() ==> !old(self)@.state.subscriptions.contains_key(
                    #[trigger] filters[i],
                ) {
                lemma_unsubscribe_unknown(old(self)@.state.subscriptions, filters);
            }
        }
        Ok(proto::UnsubAck { packet_identifier: unsubscribe.packet_identifier })
    }

    /// Prepares `event` for the session's client and notes the time: the
    /// result is the message, with the connection to write it to.
    pub fn send(&mut self, event: Event) -> (delivery: Delivery)
        requires
            old(self).wf(),
        ensures
            final(self).wf(),
            final(self)@ == old(self)@.stamped(final(self)@.state.last_active),
            delivery@ == old(self)@.delivery(event@),
    {
        let now = clock::now();
        self.send_at(event, now)
    }

    /// Prepares `event` for the session's client and notes `now` as the time
    /// of the last activity: the result is the message, with the connection
    /// to write it to.
    pub fn send_at(&mut self, event: Event, now: Instant) -> (delivery: Delivery)
        requires
            old(self).wf(),
        ensures
            final(self).wf(),
            final(self)@ == old(self)@.stamped(now),
            delivery@ == old(self)@.delivery(event@),
    {
        self.state.touch(now);
        let message = Message::new(self.state.client_id().clone(), event);
        Delivery::new(self.handle, message)
    }
}

/// A session whose client is away and whose state is kept.
#[derive(Debug)]
pub struct OfflineSession {
    state: SessionState,
}

impl View for OfflineSession {
    type V = SessionStateView;

    closed spec fn view(&self) -> SessionStateView {
        self.state@
    }
}

impl OfflineSession {
    /// The state is well formed.
    pub closed spec fn wf(&self) -> bool {
        self.state.wf()
    }

    /// The offline session that keeps `state`.
    pub fn new(state: SessionState) -> (session: OfflineSession)
        requires
            state.wf(),
        ensures
            session.wf(),
            session@ == state@,
    {
        OfflineSession { state }
    }

    /// The state that is kept.
    pub fn state(&self) -> (state: &SessionState)
        ensures
            state@ == self@,
            self.wf() ==> state.wf(),
    {
        &self.state
    }

    /// The state that is kept, by value.
    pub fn into_state(self) -> (state: SessionState)
        ensures
            state@ == self@,
            self.wf() ==> state.wf(),
    {
        self.state
    }
}

/// The session of one client.
#[derive(Debug)]
pub enum Session {
    /// Online, and gone when the connection goes.
    Transient(ConnectedSession),
    /// Online, and kept when the connection goes.
    Persistent(ConnectedSession),
    /// On its way out: the state is gone already, the connection can still
    /// take one last message.
    Disconnecting(ClientId, ConnectionHandle),
    /// Not connected; the state is kept for the client's return.
    Offline(OfflineSession),
}

/// The mathematical content of a [`Session`].
pub enum SessionView {
    Transient(ConnectedSessionView),
    Persistent(ConnectedSessionView),
    Disconnecting(Seq<char>, ConnectionHandle),
    Offline(SessionStateView),
}

impl SessionView {
    /// The client that the session belongs to.
    pub open spec fn client_id(self) -> Seq<char> {
        match self {
            SessionView::Transient(connected) => connected.state.client_id,
            SessionView::Persistent(connected) => connected.state.client_id,
            SessionView::Disconnecting(client_id, _) => client_id,
            SessionView::Offline(state) => state.client_id,
        }
    }

    /// The connection that the session is bound to, if it is bound to one.
    pub open spec fn handle(self) -> Option<ConnectionHandle> {
        match self {
            SessionView::Transient(connected) => Some(connected.handle),
            SessionView::Persistent(connected) => Some(connected.handle),
            SessionView::Disconnecting(_, handle) => Some(handle),
            SessionView::Offline(_) => None,
        }
    }

    /// Whether the client is connected and the session has its state.
    pub open spec fn is_online(self) -> bool {
        self is Transient || self is Persistent
    }

    /// The message that carries `event` to the session's client, with the
    /// connection to write it to. An offline session has none.
    pub open spec fn delivery(self, event: EventView) -> Option<DeliveryView> {
        match self.handle() {
            Some(handle) => Some(
                DeliveryView {
                    handle,
                    message: MessageView { client_id: self.client_id(), event },
                },
            ),
            None => None,
        }
    }

    /// The session after something was sent at `now`: an online session
    /// notes the time, any other stays as it is.
    pub open spec fn stamped(self, now: Instant) -> SessionView {
        match self {
            SessionView::Transient(connected) => SessionView::Transient(connected.stamped(now)),
            SessionView::Persistent(connected) => SessionView::Persistent(connected.stamped(now)),
            _ => self,
        }
    }

    /// The session after the requests of a SUBSCRIBE packet; only an online
    /// session changes.
    pub open spec fn subscribed(self, requests: Seq<SubscribeToView>) -> SessionView {
        match self {
            SessionView::Transient(connected) => SessionView::Transient(
                connected.subscribed(requests),
            ),
            SessionView::Persistent(connected) => SessionView::Persistent(
                connected.subscribed(requests),
            ),
            _ => self,
        }
    }

    /// The session after the filters of an UNSUBSCRIBE packet were removed;
    /// only an online session changes.
    pub open spec fn unsubscribed(self, filters: Seq<Seq<char>>) -> SessionView {
        match self {
            SessionView::Transient(connected) => SessionView::Transient(
                connected.unsubscribed(filters),
            ),
            SessionView::Persistent(connected) => SessionView::Persistent(
                connected.unsubscribed(filters),
            ),
            _ => self,
        }
    }

    /// What is left of the session after a graceful disconnect: a transient
    /// session is gone, a persistent one goes offline with its state, and
    /// any other stays as it is.
    pub open spec fn disconnected(self) -> Option<SessionView> {
        match self {
            SessionView::Transient(_) => None,
            SessionView::Persistent(connected) => Some(SessionView::Offline(connected.state)),
            _ => Some(self),
        }
    }

    /// The state that a client finds again when it comes back and asks for
    /// its session: that of a persistent or an offline session.
    pub open spec fn kept_state(self) -> Option<SessionStateView> {
        match self {
            SessionView::Persistent(connected) => Some(connected.state),
            SessionView::Offline(state) => Some(state),
            _ => None,
        }
    }

    /// What is left of the session when its connection goes: a persistent
    /// session goes offline with its state, an offline one stays, and a
    /// transient or disconnecting one is gone.
    pub open spec fn retired(self) -> Option<SessionView> {
        match self {
            SessionView::Persistent(connected) => Some(SessionView::Offline(connected.state)),
            SessionView::Offline(state) => Some(self),
            SessionView::Transient(_) => None,
            SessionView::Disconnecting(_, _) => None,
        }
    }
}

impl View for Session {
    type V = SessionView;

    open spec fn view(&self) -> SessionView {
        match self {
            Session::Transient(connected) => SessionView::Transient(connected@),
            Session::Persistent(connected) => SessionView::Persistent(connected@),
            Session::Disconnecting(client_id, handle) => SessionView::Disconnecting(
                client_id@,
                *handle,
            ),
            Session::Offline(offline) => SessionView::Offline(offline@),
        }
    }
}

impl Session {
    /// The state, where the session has one, is well formed.
    pub open spec fn wf(&self) -> bool {
        match self {
            Session::Transient(connected) => connected.wf(),
            Session::Persistent(connected) => connected.wf(),
            Session::Disconnecting(_, _) => true,
            Session::Offline(offline) => offline.wf(),
        }
    }

    /// A session that starts now and ends with its connection, for the
    /// client and on the connection of `connreq`.
    pub fn new_transient(connreq: ConnReq) -> (session: Session)
        ensures
            session.wf(),
            session@ matches SessionView::Transient(connected) && connected == (
            ConnectedSessionView {
                state: SessionStateView::fresh(
                    connreq@.client_id,
                    connreq@.connect.keep_alive,
                    connected.state.last_active,
                ),
                handle: connreq@.handle,
            }),
    {
        let state = SessionState::new(connreq.client_id().clone(), &connreq);
        let connected = ConnectedSession::new(state, connreq.into_handle());
        Session::Transient(connected)
    }

    /// A session that outlives its connection, with the given state and on
    /// the connection of `connreq`.
    pub fn new_persistent(connreq: ConnReq, state: SessionState) -> (session: Session)
        requires
            state.wf(),
        ensures
            session.wf(),
            session@ == SessionView::Persistent(
                ConnectedSessionView { state: state@, handle: connreq@.handle },
            ),
    {
        let connected = ConnectedSession::new(state, connreq.into_handle());
        Session::Persistent(connected)
    }

    /// A session that keeps `state` for a client that is away.
    pub fn new_offline(state: SessionState) -> (session: Session)
        requires
            state.wf(),
        ensures
            session.wf(),
            session@ == SessionView::Offline(state@),
    {
        let offline = OfflineSession::new(state);
        Session::Offline(offline)
    }

    /// The client that the session belongs to.
    pub fn client_id(&self) -> (client_id: &ClientId)
        ensures
            client_id@ == self@.client_id(),
    {
        match self {
            Session::Transient(connected) => connected.state().client_id(),
            Session::Persistent(connected) => connected.state().client_id(),
            Session::Disconnecting(client_id, _) => client_id,
            Session::Offline(offline) => offline.state().client_id(),
        }
    }

    /// The connection that the session is bound to, if it is bound to one.
    pub fn handle(&self) -> (handle: Option<ConnectionHandle>)
        ensures
            handle == self@.handle(),
    {
        match self {
            Session::Transient(connected) => Some(*connected.handle()),
            Session::Persistent(connected) => Some(*connected.handle()),
            Session::Disconnecting(_, handle) => Some(*handle),
            Session::Offline(_) => None,
        }
    }

    /// Takes a SUBSCRIBE packet. Only an online session does; any other
    /// fails with `SessionOffline` and stays as it is.
    pub fn subscribe(&mut self, subscribe: proto::Subscribe) -> (ack: Result<proto::SubAck, Error>)
        requires
            old(self).wf(),
        ensures
            final(self).wf(),
            final(self)@ == old(self)@.subscribed(subscribe@.subscribe_to),
            if old(self)@.is_online() {
                ack matches Ok(suback) && suback@ == (proto::SubAckView {
                    packet_identifier: subscribe.packet_identifier,
                    qos: sub_acks(subscribe@.subscribe_to),
                })
            } else {
                ack matches Err(e) && e@ == ErrorKind::SessionOffline
            },
    {
        match self {
            Session::Transient(connected) => connected.subscribe(subscribe),
            Session::Persistent(connected) => connected.subscribe(subscribe),
            Session::Offline(_) => Err(Error::new(ErrorKind::SessionOffline)),
            Session::Disconnecting(_, _) => Err(Error::new(ErrorKind::SessionOffline)),
        }
    }

    /// Takes an UNSUBSCRIBE packet. Only an online session does; any other
    /// fails with `SessionOffline` and stays as it is.
    pub fn unsubscribe(&mut self, unsubscribe: proto::Unsubscribe) -> (ack: Result<
        proto::UnsubAck,
        Error,
    >)
        requires
            old(self).wf(),
        ensures
            final(self).wf(),
            final(self)@ == old(self)@.unsubscribed(unsubscribe@.unsubscribe_from),
            if old(self)@.is_online() {
                ack matches Ok(unsuback) && unsuback == (proto::UnsubAck {
                    packet_identifier: unsubscribe.packet_identifier,
                })
            } else {
                ack matches Err(e) && e@ == ErrorKind::SessionOffline
            },
    {
        match self {
            Session::Transient(connected) => connected.unsubscribe(unsubscribe),
            Session::Persistent(connected) => connected.unsubscribe(unsubscribe),
            Session::Offline(_) => Err(Error::new(ErrorKind::SessionOffline)),
            Session::Disconnecting(_, _) => Err(Error::new(ErrorKind::SessionOffline)),
        }
    }

    /// Whether `after` is `before` once something was sent at some time.
    pub open spec fn sent_between(before: SessionView, after: SessionView) -> bool {
        exists|now: Instant| after == #[trigger] before.stamped(now)
    }

    /// Prepares `event` for the session's client. An online session notes
    /// the time of the reading of the clock; a disconnecting one only wraps
    /// the event; an offline one fails with `SessionOffline`.
    pub fn send(&mut self, event: Event) -> (delivery: Result<Delivery, Error>)
        requires
            old(self).wf(),
        ensures
            final(self).wf(),
            Self::sent_between(old(self)@, final(self)@),
            match old(self)@.delivery(event@) {
                Some(d) => delivery matches Ok(out) && out@ == d,
                None => delivery matches Err(e) && e@ == ErrorKind::SessionOffline,
            },
    {
        let now = clock::now();
        let delivery = self.send_at(event, now);
        assert(self@ == old(self)@.stamped(now));
        delivery
    }

    /// Prepares `event` for the session's client, with `now` as the reading
    /// of the clock. An online session notes `now` as the time of its last
    /// activity; a disconnecting one only wraps the event; an offline one
    /// fails with `SessionOffline`.
    pub fn send_at(&mut self, event: Event, now: Instant) -> (delivery: Result<Delivery, Error>)
        requires
            old(self).wf(),
        ensures
            final(self).wf(),
            final(self)@ == old(self)@.stamped(now),
            match old(self)@.delivery(event@) {
                Some(d) => delivery matches Ok(out) && out@ == d,
                None => delivery matches Err(e) && e@ == ErrorKind::SessionOffline,
            },
    {
        match self {
            Session::Transient(connected) => Ok(connected.send_at(event, now)),
            Session::Persistent(connected) => Ok(connected.send_at(event, now)),
            Session::Disconnecting(client_id, handle) => {
                let message = Message::new(client_id.clone(), event);
                Ok(Delivery::new(*handle, message))
            },
            Session::Offline(_) => Err(Error::new(ErrorKind::SessionOffline)),
        }
    }
}

} // verus!
