//! The responding side: what it replies to each request, and which events
//! it pushes to the event wires attached to it.

use crate::client::ClientMessage;
use crate::payload::Payload;
use crate::port::{
    parcel_for, receive, received, Parcel, Port, Shareable, ShareableError, Transport,
};
use crate::server::{ServerError, ServerEvent, ServerMessage, ServerResponse};
use crate::wire::WireValue;
use vstd::prelude::*;

verus! {

/// Work for the owner to do on a resource that a request handed over,
/// before the reply is sent.
#[derive(Debug, Clone, Copy, PartialEq, Eq, Structural)]
pub enum Work {
    /// Nothing.
    Nothing,
    /// Take the drawing surface with the handle given.
    Attach(u64),
    /// Wrap the message port with the handle given, and start it.
    WireUp(u64),
}

/// One push to one event wire.
#[derive(Debug, PartialEq, Eq)]
pub struct Push {
    /// The handle of the message port that the event wire wraps.
    pub wire: u64,
    pub parcel: Parcel,
}

/// What the responding side does about one request: the work, then the
/// pushes in the order given, then the reply.
#[derive(Debug, PartialEq, Eq)]
pub struct Reaction {
    pub work: Work,
    pub events: Vec<Push>,
    pub reply: Parcel,
}

/// What became of one message that arrived.
#[derive(Debug, PartialEq, Eq)]
pub enum Handled {
    /// It was a request, and this is the reaction to it.
    Replied(Reaction),
    /// It could not be read, and was dropped.
    Dropped(ShareableError),
}

/// The counter after a request.
pub open spec fn counter_after(counter: u8, message: ClientMessage) -> int {
    match message {
        ClientMessage::Inc => counter + 1,
        ClientMessage::Dec => counter - 1,
        _ => counter as int,
    }
}

/// Whether a request can be carried out: it leaves the counter in its
/// range.
pub open spec fn carried_out(counter: u8, message: ClientMessage) -> bool {
    0 <= counter_after(counter, message) <= u8::MAX
}

/// The answer to a request: `Ok` where it is carried out, an error where it
/// is not.
pub open spec fn answer_to(counter: u8, message: ClientMessage) -> ServerResponse {
    if carried_out(counter, message) {
        ServerResponse::Okay(ServerMessage::Okay)
    } else {
        ServerResponse::Failed(ServerError::Unknown)
    }
}

/// Whether a request makes the responding side push the counter.
pub open spec fn pushes(counter: u8, message: ClientMessage) -> bool {
    carried_out(counter, message) && (message == ClientMessage::Query || message
        == ClientMessage::Inc || message == ClientMessage::Dec)
}

/// The work that a request asks for.
pub open spec fn work_for(message: ClientMessage) -> Work {
    match message {
        ClientMessage::Attach(surface) => Work::Attach(surface),
        ClientMessage::WireUp(port) => Work::WireUp(port),
        _ => Work::Nothing,
    }
}

/// The event wires after a request: `WireUp` attaches one more.
pub open spec fn wires_after(wires: Seq<u64>, message: ClientMessage) -> Seq<u64> {
    match message {
        ClientMessage::WireUp(port) => wires.push(port),
        _ => wires,
    }
}

/// What the responding side is after a request, and what it does about it:
/// the counter, the event wires, the work, the answer, and how many pushes.
pub open spec fn reacts(
    before: AtlasServer,
    request: Payload<ClientMessage>,
    after: AtlasServer,
    reaction: Reaction,
) -> bool {
    let counter = before.counter_spec();
    let message = request.message;
    &&& after.verifies() == before.verifies()
    &&& after.counter_spec() == (if carried_out(counter, message) {
        counter_after(counter, message)
    } else {
        counter as int
    })
    &&& after.wires() == wires_after(before.wires(), message)
    &&& reaction.work == work_for(message)
    &&& reaction.reply@ == parcel_for(
        Payload { id: request.id, message: answer_to(counter, message) },
        before.verifies(),
    )
    &&& reaction.events@.len() == (if pushes(counter, message) {
        before.wires().len()
    } else {
        0
    })
    &&& forall|i: int|
        0 <= i < reaction.events@.len() ==> (#[trigger] reaction.events@[i]).wire
            == before.wires()[i] && reaction.events@[i].parcel@ == parcel_for(
            ServerEvent::Count(after.counter_spec()),
            before.verifies(),
        )
}

/// The responding side of the protocol.
#[derive(Debug, PartialEq, Eq)]
pub struct AtlasServer {
    counter: u8,
    wires: Vec<u64>,
    port: Port,
}

impl AtlasServer {
    /// The counter's value.
    pub closed spec fn counter_spec(&self) -> u8 {
        self.counter
    }

    /// The event wires attached, by the handles of their message ports, in
    /// the order of attachment.
    pub closed spec fn wires(&self) -> Seq<u64> {
        self.wires@
    }

    /// Whether identity is verified on the port to the requesting side.
    pub closed spec fn verifies(&self) -> bool {
        self.port.verifies()
    }

    /// A responding side with the counter at zero and no event wire. Its
    /// port wraps the worker's own scope.
    pub fn new() -> (server: AtlasServer)
        ensures
            server.counter_spec() == 0,
            server.wires() == Seq::<u64>::empty(),
            !server.verifies(),
    {
        let (port, _) = Port::wrap(Transport::Scope);
        AtlasServer { counter: 0, wires: Vec::new(), port }
    }

    #[verifier::when_used_as_spec(counter_spec)]
    pub fn counter(&self) -> (counter: u8)
        ensures
            counter == self.counter_spec(),
    {
        self.counter
    }

    /// Turns the verification of identity on or off, for the port and for
    /// the event wires alike.
    pub fn set_verification(&mut self, verify: bool)
        ensures
            final(self).verifies() == verify,
            final(self).counter_spec() == old(self).counter_spec(),
            final(self).wires() == old(self).wires(),
    {
        self.port.set_verification(verify);
    }

    /// One push of `event` to each event wire, in the order of attachment.
    fn push_event(&self, event: ServerEvent) -> (events: Vec<Push>)
        ensures
            events@.len() == self.wires().len(),
            forall|i: int|
                0 <= i < events@.len() ==> (#[trigger] events@[i]).wire == self.wires()[i]
                    && events@[i].parcel@ == parcel_for(event, self.verifies()),
    {
        let mut events: Vec<Push> = Vec::new();
        let mut i: usize = 0;
        while i < self.wires.len()
            invariant
                i <= self.wires.len(),
                events@.len() == i,
                forall|k: int|
                    0 <= k < i ==> (#[trigger] events@[k]).wire == self.wires@[k]
                        && events@[k].parcel@ == parcel_for(event, self.port.verifies()),
            decreases self.wires.len() - i,
        {
            let parcel = self.port.send(&event);
            events.push(Push { wire: self.wires[i], parcel });
            i += 1;
        }
        events
    }

    /// Reacts to one request.
    ///
    /// Every request gets exactly one reply, in an envelope with the
    /// request's identifier: `Ok` where the request is carried out, an error
    /// where it would move the counter out of its range, in which case
    /// nothing changes and nothing is pushed. `Inc` and `Dec` move the
    /// counter by one; they and `Query` push the counter's value, as it then
    /// is, once to each event wire. `WireUp` attaches the port handed over
    /// as one more event wire, which gets the pushes of later requests.
    pub fn respond(&mut self, request: Payload<ClientMessage>) -> (reaction: Reaction)
        ensures
            reacts(*old(self), request, *final(self), reaction),
    {
        let Payload { id, message } = request;
        let mut work = Work::Nothing;
        let mut events: Vec<Push> = Vec::new();
        let mut answer = ServerResponse::Okay(ServerMessage::Okay);
        match message {
            ClientMessage::Ping => {},
            ClientMessage::Query => {
                events = self.push_event(ServerEvent::Count(self.counter));
            },
            ClientMessage::Inc => {
                if self.counter < u8::MAX {
                    self.counter = self.counter + 1;
                    events = self.push_event(ServerEvent::Count(self.counter));
                } else {
                    answer = ServerResponse::Failed(ServerError::Unknown);
                }
            },
            ClientMessage::Dec => {
                if self.counter > 0 {
                    self.counter = self.counter - 1;
                    events = self.push_event(ServerEvent::Count(self.counter));
                } else {
                    answer = ServerResponse::Failed(ServerError::Unknown);
                }
            },
            ClientMessage::Attach(surface) => {
                work = Work::Attach(surface);
            },
            ClientMessage::WireUp(port) => {
                self.wires.push(port);
                work = Work::WireUp(port);
            },
        }
        let reply = self.port.send(&Payload { id, message: answer });
        Reaction { work, events, reply }
    }

    /// Takes one message that arrived and reacts to it.
    ///
    /// A message that is no request in its envelope is dropped, with the
    /// reason, and nothing changes; what comes after it is not affected.
    pub fn listen(&mut self, event: &WireValue) -> (handled: Handled)
        ensures
            match received::<Payload<ClientMessage>>(event@, old(self).verifies()) {
                Ok(request) => handled matches Handled::Replied(reaction) && reacts(
                    *old(self),
                    request,
                    *final(self),
                    reaction,
                ),
                Err(failure) => {
                    &&& handled matches Handled::Dropped(e)
                    &&& e@ == failure
                    &&& final(self).verifies() == old(self).verifies()
                    &&& final(self).counter_spec() == old(self).counter_spec()
                    &&& final(self).wires() == old(self).wires()
                },
            },
    {
        match receive::<Payload<ClientMessage>>(event, self.port.verify_flag()) {
            Ok(request) => Handled::Replied(self.respond(request)),
            Err(e) => Handled::Dropped(e),
        }
    }
}

} // verus!
