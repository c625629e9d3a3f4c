//! The requesting side: requests that wait for their replies, the event
//! wire, and observables on the broadcast bus.

use crate::client::ClientMessage;
use crate::format::written;
use crate::payload::Payload;
use crate::port::{
    parcel_for, receive, received, shared_round_trip, Listener, Parcel, Port, Shareable, Transport,
};
use crate::server::{ServerEvent, ServerMessage, ServerResponse};
use crate::wire::{lemma_wire_seq, wire_seq, Wire, WireValue};
use vstd::prelude::*;
use vstd::string::StringExecFns;

verus! {

/// A request that waits for its reply: its identifier, and the callback
/// that listens for the reply.
#[derive(Debug, Clone, Copy, PartialEq, Eq, Structural)]
pub struct Pending {
    pub id: u8,
    pub callback: u64,
}

/// A request as it goes out: the identifier chosen for it, the parcel to
/// send, and the registration of the callback that listens for the reply.
#[derive(Debug, PartialEq, Eq)]
pub struct Issued {
    pub id: u8,
    pub parcel: Parcel,
    pub listener: Listener,
}

/// The place of the waiting request whose callback is `callback`, if there
/// is one.
pub open spec fn place_of(pending: Seq<Pending>, callback: u64) -> Option<int> {
    if exists|i: int| 0 <= i < pending.len() && (#[trigger] pending[i]).callback == callback {
        Some(
            choose|i: int| 0 <= i < pending.len() && (#[trigger] pending[i]).callback == callback,
        )
    } else {
        None
    }
}

/// Whether a request with the identifier `id` is waiting.
pub open spec fn waits(pending: Seq<Pending>, id: u8) -> bool {
    exists|i: int| 0 <= i < pending.len() && (#[trigger] pending[i]).id == id
}

/// The identifier that stands `k` places behind `candidate`, going round
/// from 255 to 0.
pub open spec fn candidate_at(candidate: u8, k: int) -> u8 {
    ((candidate + k) % 256) as u8
}

/// The first identifier, from place `k` behind `candidate` on, that no
/// waiting request has; none where all that are left are taken.
pub open spec fn free_from(pending: Seq<Pending>, candidate: u8, k: int) -> Option<u8>
    decreases 256 - k,
{
    if k >= 256 || k < 0 {
        None
    } else if !waits(pending, candidate_at(candidate, k)) {
        Some(candidate_at(candidate, k))
    } else {
        free_from(pending, candidate, k + 1)
    }
}

/// The reply that `event` holds for the request with the identifier `id`:
/// the message in the envelope, where `event` is an envelope with that
/// identifier. Anything else is not for this request.
pub open spec fn resolves(id: u8, event: Wire, verify: bool) -> Option<ServerResponse> {
    match received::<Payload<ServerResponse>>(event, verify) {
        Ok(reply) => if reply.id == id {
            Some(reply.message)
        } else {
            None
        },
        Err(_) => None,
    }
}

/// The name under which the counter is broadcast.
pub open spec fn count_topic() -> Seq<char> {
    "ServerEvent::Count"@
}

/// What goes on the bus for `event`, if anything: a pair of the topic and
/// the value, where `event` is an event.
pub open spec fn relayed(event: Wire, verify: bool) -> Option<Wire> {
    match received::<ServerEvent>(event, verify) {
        Ok(ServerEvent::Count(value)) => Some(
            Wire::Sequence(seq![Wire::Text(count_topic()), Wire::Number(value as i64)]),
        ),
        Err(_) => None,
    }
}

/// The decimal digit `d`.
pub open spec fn digit(d: int) -> char {
    if d == 0 {
        '0'
    } else if d == 1 {
        '1'
    } else if d == 2 {
        '2'
    } else if d == 3 {
        '3'
    } else if d == 4 {
        '4'
    } else if d == 5 {
        '5'
    } else if d == 6 {
        '6'
    } else if d == 7 {
        '7'
    } else if d == 8 {
        '8'
    } else {
        '9'
    }
}

/// The decimal numeral of `n`, without leading zeros.
pub open spec fn decimal(n: nat) -> Seq<char>
    decreases n,
{
    if n < 10 {
        seq![digit(n as int)]
    } else {
        decimal(n / 10).push(digit((n % 10) as int))
    }
}

/// The name of the bus with the suffix given: the common prefix, a hash
/// sign, and the suffix in decimal.
pub open spec fn bus_name(suffix: u8) -> Seq<char> {
    "atlas_bus"@ + seq!['#'] + decimal(suffix as nat)
}

fn digit_text(d: u8) -> (text: &'static str)
    requires
        d < 10,
    ensures
        text@ == seq![digit(d as int)],
{
    proof {
        reveal_strlit("0");
        reveal_strlit("1");
        reveal_strlit("2");
        reveal_strlit("3");
        reveal_strlit("4");
        reveal_strlit("5");
        reveal_strlit("6");
        reveal_strlit("7");
        reveal_strlit("8");
        reveal_strlit("9");
    }
    let text = match d {
        0 => "0",
        1 => "1",
        2 => "2",
        3 => "3",
        4 => "4",
        5 => "5",
        6 => "6",
        7 => "7",
        8 => "8",
        _ => "9",
    };
    assert(text@ =~= seq![digit(d as int)]);
    text
}

/// The name of the bus with the suffix given.
pub fn bus_id_for(suffix: u8) -> (name: String)
    ensures
        name@ == bus_name(suffix),
{
    let mut name = "atlas_bus".to_owned();
    proof {
        reveal_strlit("#");
    }
    name.append("#");
    assert(name@ =~= "atlas_bus"@ + seq!['#']);
    let ghost head = name@;
    if suffix >= 100 {
        name.append(digit_text(suffix / 100));
    }
    if suffix >= 10 {
        name.append(digit_text((suffix / 10) % 10));
    }
    name.append(digit_text(suffix % 10));
    proof {
        let n = suffix as nat;
        if n >= 100 {
            assert(decimal(n / 100) == seq![digit((n / 100) as int)]);
            assert((n / 10) / 10 == n / 100);
            assert(decimal(n / 10) == decimal(n / 100).push(digit(((n / 10) % 10) as int)));
        } else if n >= 10 {
            assert(decimal(n / 10) == seq![digit((n / 10) as int)]);
        }
        assert(name@ =~= head + decimal(n));
    }
    name
}

/// A byte from `rand::random`, which draws it from the thread's generator.
/// Nothing is claimed of the value.
#[verifier::external_body]
fn random_u8() -> (value: u8) {
    rand::random::<u8>()
}

/// A subscription to one topic on an instance's bus: which callbacks are
/// subscribed.
#[derive(Debug, PartialEq, Eq)]
pub struct Observable {
    id: String,
    channel: String,
    listeners: Vec<u64>,
}

/// What a subscriber to `topic` is told of `event`: the second item, where
/// `event` is a sequence that starts with the topic and has a second item.
pub open spec fn told(topic: Seq<char>, event: Wire) -> Option<Wire> {
    match event {
        Wire::Sequence(items) => if items.len() >= 2 && items[0] == Wire::Text(topic) {
            Some(items[1])
        } else {
            None
        },
        _ => None,
    }
}

impl Observable {
    /// The topic observed.
    pub closed spec fn topic(&self) -> Seq<char> {
        self.id@
    }

    /// The name of the bus listened on.
    pub closed spec fn bus(&self) -> Seq<char> {
        self.channel@
    }

    /// The callbacks subscribed, in the order of subscription.
    pub closed spec fn listeners(&self) -> Seq<u64> {
        self.listeners@
    }

    /// The name of the bus listened on.
    pub fn bus_id(&self) -> (name: String)
        ensures
            name@ == self.bus(),
    {
        self.channel.clone()
    }

    /// Subscribes `callback`. What is returned names the subscription, to
    /// end it by.
    pub fn subscribe(&mut self, callback: u64) -> (token: u64)
        ensures
            token == callback,
            final(self).listeners() == old(self).listeners().push(callback),
            final(self).topic() == old(self).topic(),
            final(self).bus() == old(self).bus(),
    {
        self.listeners.push(callback);
        callback
    }

    /// Ends the subscription that `token` names: exactly that callback is
    /// removed, once.
    pub fn unsubscribe(&mut self, token: u64)
        ensures
            final(self).listeners() == old(self).listeners().remove_value(token),
            final(self).topic() == old(self).topic(),
            final(self).bus() == old(self).bus(),
    {
        let mut i: usize = 0;
        while i < self.listeners.len()
            invariant
                i <= self.listeners.len(),
                self.listeners@ == old(self).listeners@,
                self.id == old(self).id,
                self.channel == old(self).channel,
                forall|k: int| 0 <= k < i ==> self.listeners@[k] != token,
            decreases self.listeners.len() - i,
        {
            if self.listeners[i] == token {
                proof {
                    self.listeners@.index_of_first_ensures(token);
                }
                self.listeners.remove(i);
                return ;
            }
            i += 1;
        }
        proof {
            self.listeners@.index_of_first_ensures(token);
        }
    }

    /// What a subscriber is told of `event`, which arrived on the bus: its
    /// value, where `event` is a pair whose first item is the topic observed.
    /// Anything else is passed over.
    pub fn notify(&self, event: &WireValue) -> (value: Option<WireValue>)
        ensures
            match value {
                Some(value) => told(self.topic(), event@) == Some(value@),
                None => told(self.topic(), event@) is None,
            },
    {
        match event {
            WireValue::Sequence(items) => {
                proof {
                    lemma_wire_seq(items@);
                }
                if items.len() < 2 {
                    return None;
                }
                match &items[0] {
                    WireValue::Text(topic) => {
                        if *topic == self.id {
                            Some(items[1].clone())
                        } else {
                            None
                        }
                    },
                    _ => None,
                }
            },
            _ => None,
        }
    }

    /// Gives the observable up: the callbacks to take off the bus are all
    /// that were subscribed still.
    pub fn release(self) -> (callbacks: Vec<u64>)
        ensures
            callbacks@ == self.listeners(),
    {
        self.listeners
    }
}

/// Whether every identifier is taken by a waiting request.
pub open spec fn all_wait(pending: Seq<Pending>) -> bool {
    forall|id: u8| waits(pending, id)
}

/// The search for a free identifier fails only where every identifier is
/// taken, wherever it starts.
pub proof fn lemma_free_from(pending: Seq<Pending>, candidate: u8)
    ensures
        free_from(pending, candidate, 0) is None <==> all_wait(pending),
        free_from(pending, candidate, 0) matches Some(id) ==> !waits(pending, id),
{
    lemma_free_from_rest(pending, candidate, 0);
    if free_from(pending, candidate, 0) is None {
        assert forall|id: u8| waits(pending, id) by {
            let k = (id - candidate + 256) % 256;
            assert(candidate_at(candidate, k) == id);
        }
    }
}

/// What the search finds from place `k` on is free, and it finds nothing
/// only where all the places from `k` on are taken.
proof fn lemma_free_from_rest(pending: Seq<Pending>, candidate: u8, k: int)
    requires
        0 <= k <= 256,
    ensures
        match free_from(pending, candidate, k) {
            Some(id) => !waits(pending, id),
            None => forall|j: int| k <= j < 256 ==> waits(pending, #[trigger] candidate_at(candidate, j)),
        },
    decreases 256 - k,
{
    if k < 256 {
        lemma_free_from_rest(pending, candidate, k + 1);
    }
}

/// What issuing a request does: where `callback` is not registered yet and
/// an identifier is free, the request goes out in an envelope with an
/// identifier that no waiting request has, `callback` listens for the
/// reply, and the request waits; else nothing is issued and nothing
/// changes.
pub open spec fn issues(
    before: AtlasClient,
    message: ClientMessage,
    callback: u64,
    after: AtlasClient,
    issued: Option<Issued>,
) -> bool {
    &&& after.well_formed()
    &&& after.verifies() == before.verifies()
    &&& after.bus() == before.bus()
    &&& after.wired() == before.wired()
    &&& after.wire_listeners() == before.wire_listeners()
    &&& issued is None <==> before.listeners().contains(callback) || all_wait(before.pending())
    &&& match issued {
        Some(out) => {
            &&& !waits(before.pending(), out.id)
            &&& out.listener.callback() == callback
            &&& out.parcel@ == parcel_for(Payload { id: out.id, message }, before.verifies())
            &&& after.pending() == before.pending().push(Pending { id: out.id, callback })
            &&& after.listeners() == before.listeners().push(callback)
        },
        None => {
            &&& after.pending() == before.pending()
            &&& after.listeners() == before.listeners()
        },
    }
}

/// The requesting side of the protocol.
#[derive(Debug, PartialEq, Eq)]
pub struct AtlasClient {
    pipe: Port,
    wire: Option<(Port, Listener)>,
    bus_id: String,
    pending: Vec<Pending>,
}

impl AtlasClient {
    /// The requests that wait for their replies, oldest first.
    pub closed spec fn pending(&self) -> Seq<Pending> {
        self.pending@
    }

    /// The callbacks registered on the port to the responding side.
    pub closed spec fn listeners(&self) -> Seq<u64> {
        self.pipe.listeners()
    }

    /// Whether identity is verified on the port to the responding side.
    pub closed spec fn verifies(&self) -> bool {
        self.pipe.verifies()
    }

    /// The name of this instance's bus.
    pub closed spec fn bus(&self) -> Seq<char> {
        self.bus_id@
    }

    /// Whether an event wire is attached.
    pub closed spec fn wired(&self) -> bool {
        self.wire is Some
    }

    /// Each waiting request has its own identifier and its own callback, and
    /// the callbacks registered are those of the waiting requests, in order.
    pub closed spec fn well_formed(&self) -> bool {
        &&& self.pipe.well_formed()
        &&& self.pipe.listeners().len() == self.pending@.len()
        &&& forall|i: int|
            0 <= i < self.pending@.len() ==> self.pipe.listeners()[i]
                == (#[trigger] self.pending@[i]).callback
        &&& forall|i: int, j: int|
            0 <= i < j < self.pending@.len() ==> (#[trigger] self.pending@[i]).id != (
            #[trigger] self.pending@[j]).id
        &&& match self.wire {
            Some((port, _)) => port.well_formed(),
            None => true,
        }
    }

    /// A requesting side with the bus suffix given: no request waits, and
    /// no event wire is attached. Its port wraps the worker.
    pub fn with_suffix(suffix: u8) -> (client: AtlasClient)
        ensures
            client.well_formed(),
            client.pending() == Seq::<Pending>::empty(),
            client.listeners() == Seq::<u64>::empty(),
            client.bus() == bus_name(suffix),
            !client.wired(),
            !client.verifies(),
    {
        let (pipe, _) = Port::wrap(Transport::Worker);
        AtlasClient { pipe, wire: None, bus_id: bus_id_for(suffix), pending: Vec::new() }
    }

    /// A requesting side with a bus of its own: the suffix is drawn at
    /// random, so that instances which share the broadcast medium do not
    /// hear each other.
    pub fn new() -> (client: AtlasClient)
        ensures
            client.well_formed(),
            client.pending() == Seq::<Pending>::empty(),
            client.listeners() == Seq::<u64>::empty(),
            exists|suffix: u8| client.bus() == bus_name(suffix),
            !client.wired(),
            !client.verifies(),
    {
        let suffix = random_u8();
        AtlasClient::with_suffix(suffix)
    }

    /// The name of this instance's bus.
    pub fn bus_id(&self) -> (name: String)
        ensures
            name@ == self.bus(),
    {
        self.bus_id.clone()
    }

    /// Turns the verification of identity on or off.
    pub fn set_verification(&mut self, verify: bool)
        requires
            old(self).well_formed(),
        ensures
            final(self).well_formed(),
            final(self).verifies() == verify,
            final(self).pending() == old(self).pending(),
            final(self).listeners() == old(self).listeners(),
            final(self).bus() == old(self).bus(),
            final(self).wired() == old(self).wired(),
    {
        self.pipe.set_verification(verify);
        match &mut self.wire {
            Some((port, _)) => {
                port.set_verification(verify);
            },
            None => {},
        }
    }

    /// Issues a request with the first identifier that is free at
    /// `candidate` or behind it.
    ///
    /// `callback` is registered to listen for the reply, and the request
    /// waits from now on. Nothing is issued, and nothing changes, where
    /// `callback` is registered already or all 256 identifiers are taken.
    pub fn request_with(&mut self, message: ClientMessage, callback: u64, candidate: u8) -> (issued:
        Option<Issued>)
        requires
            old(self).well_formed(),
        ensures
            issues(*old(self), message, callback, *final(self), issued),
            issued matches Some(out) ==> free_from(old(self).pending(), candidate, 0) == Some(
                out.id,
            ),
    {
        proof {
            lemma_free_from(self.pending@, candidate);
        }
        if self.pipe.is_registered(callback) {
            return None;
        }
        match self.free_id(candidate) {
            Some(id) => {
                let listener = self.pipe.add_listener(callback);
                self.pending.push(Pending { id, callback });
                let parcel = self.pipe.send(&Payload { id, message });
                Some(Issued { id, parcel, listener })
            },
            None => None,
        }
    }

    /// Issues a request with an identifier that no waiting request has,
    /// searched from a place drawn at random.
    pub fn request(&mut self, message: ClientMessage, callback: u64) -> (issued: Option<Issued>)
        requires
            old(self).well_formed(),
        ensures
            issues(*old(self), message, callback, *final(self), issued),
    {
        let candidate = random_u8();
        self.request_with(message, callback, candidate)
    }

    /// Asks the responding side to take the drawing surface with the handle
    /// given.
    pub fn attach(&mut self, surface: u64, callback: u64) -> (issued: Option<Issued>)
        requires
            old(self).well_formed(),
        ensures
            issues(*old(self), ClientMessage::Attach(surface), callback, *final(self), issued),
    {
        self.request(ClientMessage::Attach(surface), callback)
    }

    /// Asks whether the responding side is there.
    pub fn ping(&mut self, callback: u64) -> (issued: Option<Issued>)
        requires
            old(self).well_formed(),
        ensures
            issues(*old(self), ClientMessage::Ping, callback, *final(self), issued),
    {
        self.request(ClientMessage::Ping, callback)
    }

    /// Asks for the counter to be pushed as it is.
    pub fn query(&mut self, callback: u64) -> (issued: Option<Issued>)
        requires
            old(self).well_formed(),
        ensures
            issues(*old(self), ClientMessage::Query, callback, *final(self), issued),
    {
        self.request(ClientMessage::Query, callback)
    }

    /// Asks for the counter to go up by one.
    pub fn inc(&mut self, callback: u64) -> (issued: Option<Issued>)
        requires
            old(self).well_formed(),
        ensures
            issues(*old(self), ClientMessage::Inc, callback, *final(self), issued),
    {
        self.request(ClientMessage::Inc, callback)
    }

    /// Asks for the counter to go down by one.
    pub fn dec(&mut self, callback: u64) -> (issued: Option<Issued>)
        requires
            old(self).well_formed(),
        ensures
            issues(*old(self), ClientMessage::Dec, callback, *final(self), issued),
    {
        self.request(ClientMessage::Dec, callback)
    }

    /// Opens the handshake for an event wire: asks the responding side to
    /// take `port`, one end of a fresh pair of message ports, as a wire to
    /// push events through.
    pub fn listen(&mut self, port: u64, callback: u64) -> (issued: Option<Issued>)
        requires
            old(self).well_formed(),
        ensures
            issues(*old(self), ClientMessage::WireUp(port), callback, *final(self), issued),
    {
        self.request(ClientMessage::WireUp(port), callback)
    }

    /// Closes the handshake for an event wire with the reply to it.
    ///
    /// Where the responding side accepted, the other end of the pair is
    /// wrapped as this side's event wire, with `callback` listening on it
    /// for as long as the wire stands, and `true` is returned: the end is
    /// to be started. Any other reply changes nothing.
    pub fn wire_up(&mut self, reply: ServerResponse, callback: u64) -> (start: bool)
        requires
            old(self).well_formed(),
        ensures
            final(self).well_formed(),
            final(self).pending() == old(self).pending(),
            final(self).listeners() == old(self).listeners(),
            final(self).verifies() == old(self).verifies(),
            final(self).bus() == old(self).bus(),
            start == (reply == ServerResponse::Okay(ServerMessage::Okay)),
            final(self).wired() == (start || old(self).wired()),
            start ==> final(self).wire_listeners() == seq![callback],
            !start ==> final(self).wire_listeners() == old(self).wire_listeners(),
    {
        match reply {
            ServerResponse::Okay(ServerMessage::Okay) => {
                let (mut wire, start) = Port::wrap(Transport::MessagePort);
                wire.set_verification(self.pipe.verify_flag());
                let handle = wire.add_listener(callback);
                self.wire = Some((wire, handle));
                start
            },
            _ => false,
        }
    }

    /// The callbacks that listen on the event wire; none where no wire is
    /// attached.
    pub closed spec fn wire_listeners(&self) -> Seq<u64> {
        match self.wire {
            Some((port, _)) => port.listeners(),
            None => Seq::empty(),
        }
    }

    /// What to put on this instance's bus for `event`, which arrived on the
    /// event wire: the topic and the value, where `event` is an event.
    /// Anything else is passed over.
    pub fn relay(&self, event: &WireValue) -> (payload: Option<WireValue>)
        ensures
            match payload {
                Some(payload) => relayed(event@, self.verifies()) == Some(payload@),
                None => relayed(event@, self.verifies()) is None,
            },
    {
        match receive::<ServerEvent>(event, self.pipe.verify_flag()) {
            Ok(ServerEvent::Count(value)) => {
                let mut payload: Vec<WireValue> = Vec::new();
                payload.push(WireValue::Text("ServerEvent::Count".to_owned()));
                payload.push(WireValue::Number(value as i64));
                proof {
                    lemma_wire_seq(payload@);
                    assert(wire_seq(payload@) =~= seq![
                        Wire::Text(count_topic()),
                        Wire::Number(value as i64),
                    ]);
                }
                Some(WireValue::Sequence(payload))
            },
            Err(_) => None,
        }
    }

    /// An observable of the topic given on this instance's bus, with no
    /// subscriber yet.
    pub fn observe(&mut self, observable: String) -> (observed: Observable)
        ensures
            observed.topic() == observable@,
            observed.bus() == old(self).bus(),
            observed.listeners() == Seq::<u64>::empty(),
            *final(self) == *old(self),
    {
        Observable { id: observable, channel: self.bus_id.clone(), listeners: Vec::new() }
    }

    /// Finds the waiting request whose callback is `callback`.
    fn find(&self, callback: u64) -> (place: Option<usize>)
        requires
            self.well_formed(),
        ensures
            match place {
                Some(i) => place_of(self.pending(), callback) == Some(i as int) && i
                    < self.pending().len() && self.pending()[i as int].callback == callback,
                None => place_of(self.pending(), callback) is None && !self.listeners().contains(
                    callback,
                ),
            },
    {
        let mut i: usize = 0;
        while i < self.pending.len()
            invariant
                i <= self.pending.len(),
                self.well_formed(),
                forall|k: int| 0 <= k < i ==> (#[trigger] self.pending@[k]).callback != callback,
            decreases self.pending.len() - i,
        {
            if self.pending[i].callback == callback {
                proof {
                    let chosen = choose|k: int|
                        0 <= k < self.pending@.len() && (#[trigger] self.pending@[k]).callback
                            == callback;
                    assert(self.pipe.listeners()[chosen] == self.pending@[chosen].callback);
                    assert(self.pipe.listeners()[i as int] == self.pending@[i as int].callback);
                }
                return Some(i);
            }
            i += 1;
        }
        proof {
            if self.pipe.listeners().contains(callback) {
                let k = choose|k: int|
                    0 <= k < self.pipe.listeners().len() && self.pipe.listeners()[k] == callback;
                assert(self.pending@[k].callback == callback);
            }
        }
        None
    }

    /// What `event` holds for the request that `listener` listens for: the
    /// reply in the envelope, where `event` is an envelope with that
    /// request's identifier. Anything else, a message that cannot be read
    /// among it, is not for this request and is passed over.
    pub fn accept(&self, listener: &Listener, event: &WireValue) -> (reply: Option<ServerResponse>)
        requires
            self.well_formed(),
        ensures
            reply == (match place_of(self.pending(), listener.callback()) {
                Some(i) => resolves(self.pending()[i].id, event@, self.verifies()),
                None => None,
            }),
    {
        match self.find(listener.callback()) {
            Some(i) => {
                let id = self.pending[i].id;
                match receive::<Payload<ServerResponse>>(event, self.pipe.verify_flag()) {
                    Ok(reply) => {
                        if reply.id == id {
                            Some(reply.message)
                        } else {
                            None
                        }
                    },
                    Err(_) => None,
                }
            },
            None => None,
        }
    }

    /// Takes the reply that `event` holds for the request that `listener`
    /// listens for, and ends the wait in the same step: the reply is
    /// returned, the callback is taken off the port, and the request waits
    /// no longer. Where `event` holds no reply for that request, nothing
    /// changes and the registration is handed back.
    pub fn resolve(&mut self, listener: Listener, event: &WireValue) -> (outcome: Result<
        ServerResponse,
        Listener,
    >)
        requires
            old(self).well_formed(),
        ensures
            final(self).well_formed(),
            final(self).verifies() == old(self).verifies(),
            final(self).bus() == old(self).bus(),
            final(self).wired() == old(self).wired(),
            final(self).wire_listeners() == old(self).wire_listeners(),
            match place_of(old(self).pending(), listener.callback()) {
                Some(i) => match resolves(
                    old(self).pending()[i].id,
                    event@,
                    old(self).verifies(),
                ) {
                    Some(reply) => {
                        &&& outcome == Ok::<ServerResponse, Listener>(reply)
                        &&& final(self).pending() == old(self).pending().remove(i)
                        &&& final(self).listeners() == old(self).listeners().remove_value(
                            listener.callback(),
                        )
                        &&& !waits(final(self).pending(), old(self).pending()[i].id)
                        &&& !final(self).listeners().contains(listener.callback())
                    },
                    None => {
                        &&& outcome == Err::<ServerResponse, Listener>(listener)
                        &&& final(self).pending() == old(self).pending()
                        &&& final(self).listeners() == old(self).listeners()
                    },
                },
                None => {
                    &&& outcome == Err::<ServerResponse, Listener>(listener)
                    &&& final(self).pending() == old(self).pending()
                    &&& final(self).listeners() == old(self).listeners()
                },
            },
    {
        match self.accept(&listener, event) {
            Some(reply) => {
                self.settle(listener);
                Ok(reply)
            },
            None => Err(listener),
        }
    }

    /// Ends the wait of the request that `listener` listens for, after its
    /// reply or without one: the callback is taken off the port, and the
    /// request waits no longer.
    pub fn settle(&mut self, listener: Listener)
        requires
            old(self).well_formed(),
        ensures
            final(self).well_formed(),
            final(self).verifies() == old(self).verifies(),
            final(self).bus() == old(self).bus(),
            final(self).wired() == old(self).wired(),
            final(self).wire_listeners() == old(self).wire_listeners(),
            !final(self).listeners().contains(listener.callback()),
            final(self).listeners() == old(self).listeners().remove_value(listener.callback()),
            match place_of(old(self).pending(), listener.callback()) {
                Some(i) => final(self).pending() == old(self).pending().remove(i) && !waits(
                    final(self).pending(),
                    old(self).pending()[i].id,
                ),
                None => final(self).pending() == old(self).pending(),
            },
    {
        let callback = listener.callback();
        match self.find(callback) {
            Some(i) => {
                let ghost before = self.pending@;
                let ghost registered = self.pipe.listeners();
                proof {
                    registered.index_of_first_ensures(callback);
                    let first = registered.index_of_first(callback)->Some_0;
                    assert(registered[i as int] == callback);
                    assert(first == i as int);
                    registered.remove_ensures(i as int);
                    before.remove_ensures(i as int);
                }
                self.pending.remove(i);
                listener.clear(&mut self.pipe);
                proof {
                    let after = before.remove(i as int);
                    assert forall|a: int, b: int| 0 <= a < b < after.len() implies (
                    #[trigger] after[a]).id != (#[trigger] after[b]).id by {
                        let a2 = if a < i {
                            a
                        } else {
                            a + 1
                        };
                        let b2 = if b < i {
                            b
                        } else {
                            b + 1
                        };
                        assert(after[a] == before[a2]);
                        assert(after[b] == before[b2]);
                    }
                    assert forall|k: int| 0 <= k < after.len() implies (#[trigger] after[k]).id
                        != before[i as int].id by {
                        let k2 = if k < i {
                            k
                        } else {
                            k + 1
                        };
                        assert(after[k] == before[k2]);
                    }
                }
            },
            None => {
                listener.clear(&mut self.pipe);
                proof {
                    old(self).pipe.listeners().index_of_first_ensures(callback);
                }
            },
        }
    }

    /// Whether a request with the identifier `id` is waiting.
    pub fn is_waiting(&self, id: u8) -> (waiting: bool)
        ensures
            waiting == waits(self.pending(), id),
    {
        let mut i: usize = 0;
        while i < self.pending.len()
            invariant
                i <= self.pending.len(),
                forall|k: int| 0 <= k < i ==> (#[trigger] self.pending@[k]).id != id,
            decreases self.pending.len() - i,
        {
            if self.pending[i].id == id {
                return true;
            }
            i += 1;
        }
        false
    }

    /// How many callbacks listen for the reply to the request with the
    /// identifier `id`: one while the request waits, none otherwise.
    pub fn listeners_for(&self, id: u8) -> (count: usize)
        requires
            self.well_formed(),
        ensures
            count == (if waits(self.pending(), id) {
                1int
            } else {
                0int
            }),
    {
        if self.is_waiting(id) {
            1
        } else {
            0
        }
    }

    /// Picks an identifier for a new request: `candidate` where no waiting
    /// request has it, else the next one behind it that is free, going
    /// round. `None` where all 256 are taken.
    pub fn free_id(&self, candidate: u8) -> (id: Option<u8>)
        ensures
            id == free_from(self.pending(), candidate, 0),
            id matches Some(free) ==> !waits(self.pending(), free),
    {
        let mut k: u16 = 0;
        while k < 256
            invariant
                k <= 256,
                free_from(self.pending@, candidate, k as int) == free_from(
                    self.pending@,
                    candidate,
                    0,
                ),
            decreases 256 - k,
        {
            let id = ((candidate as u16 + k) % 256) as u8;
            assert(id == candidate_at(candidate, k as int));
            if !self.is_waiting(id) {
                return Some(id);
            }
            k += 1;
        }
        None
    }
}

/// Replies find their own requests: of two requests with different
/// identifiers, each is resolved by the reply in the envelope with its
/// identifier, with the message of that reply, and passes over the other's,
/// in whichever order the replies arrive.
pub proof fn replies_are_not_crossed(
    first: u8,
    second: u8,
    to_first: ServerResponse,
    to_second: ServerResponse,
    verify: bool,
)
    requires
        first != second,
    ensures
        written(
            Payload::<ServerResponse>::shape(),
            verify,
            (Payload { id: first, message: to_first }).message_of(),
        ) is Ok,
        written(
            Payload::<ServerResponse>::shape(),
            verify,
            (Payload { id: second, message: to_second }).message_of(),
        ) is Ok,
        ({
            let one = written(
                Payload::<ServerResponse>::shape(),
                verify,
                (Payload { id: first, message: to_first }).message_of(),
            )->Ok_0.0;
            let other = written(
                Payload::<ServerResponse>::shape(),
                verify,
                (Payload { id: second, message: to_second }).message_of(),
            )->Ok_0.0;
            &&& resolves(first, one, verify) == Some(to_first)
            &&& resolves(second, other, verify) == Some(to_second)
            &&& resolves(first, other, verify) is None
            &&& resolves(second, one, verify) is None
        }),
{
    shared_round_trip(Payload { id: first, message: to_first }, verify);
    shared_round_trip(Payload { id: second, message: to_second }, verify);
}

} // verus!
