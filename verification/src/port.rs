//! The channel: what is sent with which primitive, which listeners are
//! registered, and the errors that a codec reports.

use crate::codec::{wrote, Codec, CodecModel};
use crate::format::{read, well_formed, written};
use crate::message::{Message, MessageModel};
use crate::wire::{Wire, WireValue};
use vstd::prelude::*;
use vstd::string::StringExecFns;

verus! {

/// The mathematical value of a [`ShareableError`].
pub enum Failure {
    IncompatibleType,
    BadPayload,
    InvalidIdentifier(Seq<char>),
    SerdeFailure,
}

/// Why a value could not be written to the wire or read from it.
#[derive(Debug, PartialEq, Eq)]
pub enum ShareableError {
    /// The payload is of another type than the one being read or written.
    IncompatibleType,
    /// The payload is malformed: wrong arity, a missing field, a tag that is
    /// no string.
    BadPayload,
    /// A tag that is a string but names no variant; it carries the tag.
    InvalidIdentifier(String),
    /// The structured serializer failed.
    SerdeFailure,
}

impl View for ShareableError {
    type V = Failure;

    open spec fn view(&self) -> Failure {
        match self {
            ShareableError::IncompatibleType => Failure::IncompatibleType,
            ShareableError::BadPayload => Failure::BadPayload,
            ShareableError::InvalidIdentifier(tag) => Failure::InvalidIdentifier(tag@),
            ShareableError::SerdeFailure => Failure::SerdeFailure,
        }
    }
}

/// A type whose values can be shared with the peer: it has a codec, and
/// each of its values stands for one message of that codec.
pub trait Shareable: Sized {
    /// The codec of the type.
    spec fn shape() -> CodecModel;

    /// The message that stands for a value.
    spec fn message_of(&self) -> MessageModel;

    /// The codec is that of a type that can be defined, every value's
    /// message is one that it writes, and no two values share a message.
    proof fn shape_is_sound()
        ensures
            well_formed(Self::shape()),
            forall|value: Self, verify: bool| #[trigger]
                written(Self::shape(), verify, value.message_of()) is Ok,
            forall|a: Self, b: Self| #[trigger]
                a.message_of() == #[trigger] b.message_of() ==> a == b,
    ;

    fn codec() -> (codec: Codec)
        ensures
            codec@ == Self::shape(),
    ;

    fn to_message(&self) -> (message: Message)
        ensures
            message@ == self.message_of(),
    ;

    /// The value that `message` stands for; a message that stands for no
    /// value is a malformed payload.
    fn from_message(message: &Message) -> (result: Result<Self, ShareableError>)
        ensures
            match result {
                Ok(value) => value.message_of() == message@,
                Err(e) => e@ == Failure::BadPayload && forall|value: Self| #[trigger]
                    value.message_of() != message@,
            },
    ;
}

impl Clone for ShareableError {
    fn clone(&self) -> (copy: Self)
        ensures
            copy@ == self@,
    {
        match self {
            ShareableError::IncompatibleType => ShareableError::IncompatibleType,
            ShareableError::BadPayload => ShareableError::BadPayload,
            ShareableError::InvalidIdentifier(tag) => ShareableError::InvalidIdentifier(tag.clone()),
            ShareableError::SerdeFailure => ShareableError::SerdeFailure,
        }
    }
}

impl Failure {
    /// What the error says.
    pub open spec fn text(self) -> Seq<char> {
        match self {
            Failure::IncompatibleType =>
                "the type of the payload doesn't match the type being read"@,
            Failure::BadPayload => "invalid payload format"@,
            Failure::InvalidIdentifier(tag) => "invalid identifier: "@ + tag,
            Failure::SerdeFailure => "serde failed while sharing"@,
        }
    }
}

impl ShareableError {
    /// What the error says.
    pub fn message(&self) -> (message: String)
        ensures
            message@ == self@.text(),
    {
        match self {
            ShareableError::IncompatibleType =>
                "the type of the payload doesn't match the type being read".to_owned(),
            ShareableError::BadPayload => "invalid payload format".to_owned(),
            ShareableError::InvalidIdentifier(tag) => {
                let mut message = "invalid identifier: ".to_owned();
                message.append(tag.as_str());
                message
            },
            ShareableError::SerdeFailure => "serde failed while sharing".to_owned(),
        }
    }
}

/// The mathematical value of a [`Parcel`].
pub struct ParcelModel {
    pub data: Wire,
    pub transfer: Option<Seq<u64>>,
}

/// What is handed to the transport for one message: the wire value, and the
/// transfer list where there is anything to move. With a transfer list the
/// transport's primitive that moves resources is to be used, without one the
/// plain primitive.
#[derive(Debug, PartialEq, Eq)]
pub struct Parcel {
    pub data: WireValue,
    pub transfer: Option<Vec<u64>>,
}

impl View for Parcel {
    type V = ParcelModel;

    open spec fn view(&self) -> ParcelModel {
        ParcelModel {
            data: self.data@,
            transfer: match self.transfer {
                Some(moved) => Some(moved@),
                None => None,
            },
        }
    }
}

/// The parcel for what a codec wrote: the transfer list goes along exactly
/// where it is not empty.
pub open spec fn parcel_of(data: Wire, moved: Seq<u64>) -> ParcelModel {
    ParcelModel {
        data,
        transfer: if moved.len() > 0 {
            Some(moved)
        } else {
            None
        },
    }
}

/// The parcel that carries `message`.
pub open spec fn parcel_for<M: Shareable>(message: M, verify: bool) -> ParcelModel {
    let (data, moved) = written(M::shape(), verify, message.message_of())->Ok_0;
    parcel_of(data, moved)
}

/// Writes `message` with the codec of its type.
pub fn share<M: Shareable>(message: &M, verify: bool) -> (result: Result<
    (WireValue, Vec<u64>),
    ShareableError,
>)
    ensures
        result is Ok,
        wrote(result) == written(M::shape(), verify, message.message_of()),
{
    proof {
        M::shape_is_sound();
    }
    let codec = M::codec();
    let plain = message.to_message();
    codec.encode(&plain, verify)
}

/// The value that `message` stands for, if it stands for one.
pub open spec fn value_of<M: Shareable>(message: MessageModel) -> Option<M> {
    if exists|value: M| value.message_of() == message {
        Some(choose|value: M| value.message_of() == message)
    } else {
        None
    }
}

/// What reading a value of type `M` from `wire` gives: what the codec of
/// `M` refuses is refused likewise, and a message that the codec reads but
/// that stands for no value of `M` is a malformed payload.
pub open spec fn received<M: Shareable>(wire: Wire, verify: bool) -> Result<M, Failure> {
    match read(M::shape(), verify, wire) {
        Ok(message) => match value_of::<M>(message) {
            Some(value) => Ok(value),
            None => Err(Failure::BadPayload),
        },
        Err(failure) => Err(failure),
    }
}

/// Reads a value of type `M` from `wire` with the codec of that type.
pub fn receive<M: Shareable>(wire: &WireValue, verify: bool) -> (result: Result<M, ShareableError>)
    ensures
        match result {
            Ok(value) => received::<M>(wire@, verify) == Ok::<M, Failure>(value),
            Err(e) => received::<M>(wire@, verify) == Err::<M, Failure>(e@),
        },
{
    let codec = M::codec();
    match codec.decode(wire, verify) {
        Ok(message) => match M::from_message(&message) {
            Ok(value) => {
                proof {
                    M::shape_is_sound();
                    let chosen = choose|other: M| other.message_of() == message@;
                    assert(chosen.message_of() == value.message_of());
                }
                Ok(value)
            },
            Err(e) => Err(e),
        },
        Err(e) => Err(e),
    }
}

/// What was shared is received as it was: reading the wire value that a
/// value wrote gives that value back.
pub proof fn shared_round_trip<M: Shareable>(value: M, verify: bool)
    ensures
        written(M::shape(), verify, value.message_of()) is Ok,
        received::<M>(written(M::shape(), verify, value.message_of())->Ok_0.0, verify) == Ok::<
            M,
            Failure,
        >(value),
{
    M::shape_is_sound();
    crate::theorems::round_trip(M::shape(), verify, value.message_of());
    let chosen = choose|other: M| other.message_of() == value.message_of();
    assert(chosen.message_of() == value.message_of());
}

/// A listener's registration on a port. It names the callback that the
/// port's owner keeps; clearing it takes the callback off the port.
#[derive(Debug, PartialEq, Eq)]
pub struct Listener {
    callback: u64,
}

impl Listener {
    /// The callback that this registration names.
    pub closed spec fn callback_spec(&self) -> u64 {
        self.callback
    }

    #[verifier::when_used_as_spec(callback_spec)]
    pub fn callback(&self) -> (callback: u64)
        ensures
            callback == self.callback_spec(),
    {
        self.callback
    }

    /// Takes the callback off `owner`, the port that it was registered on.
    pub fn clear(self, owner: &mut Port)
        requires
            old(owner).well_formed(),
        ensures
            final(owner).well_formed(),
            final(owner).listeners() == old(owner).listeners().remove_value(self.callback()),
            !final(owner).listeners().contains(self.callback()),
            final(owner).verifies() == old(owner).verifies(),
            final(owner).transport() == old(owner).transport(),
    {
        owner.remove_listener(self.callback);
    }
}

/// The kinds of endpoint that a port wraps.
#[derive(Debug, Clone, Copy, PartialEq, Eq, Structural)]
pub enum Transport {
    /// A worker, seen from the context that made it.
    Worker,
    /// The worker's own global scope, seen from inside the worker.
    Scope,
    /// One end of a pair of message ports.
    MessagePort,
}

/// One end of a channel to the peer: which callbacks are registered on it,
/// and whether identity is verified on what passes through it.
#[derive(Debug, PartialEq, Eq)]
pub struct Port {
    transport: Transport,
    verify: bool,
    listeners: Vec<u64>,
}

impl Port {
    /// The callbacks registered, in the order of their registration.
    pub closed spec fn listeners(&self) -> Seq<u64> {
        self.listeners@
    }

    /// Whether identity is verified on this port.
    pub closed spec fn verifies(&self) -> bool {
        self.verify
    }

    /// No callback is registered twice.
    pub open spec fn well_formed(&self) -> bool {
        self.listeners().no_duplicates()
    }

    /// The kind of endpoint wrapped.
    pub closed spec fn transport(&self) -> Transport {
        self.transport
    }

    /// Wraps an endpoint of the kind given: nothing is registered yet, and
    /// identity is not verified. The second result says whether the endpoint
    /// has to be started before it delivers anything, which is so for a
    /// message port and for no other kind; it is due once, now.
    pub fn wrap(transport: Transport) -> (wrapped: (Port, bool))
        ensures
            wrapped.0.well_formed(),
            wrapped.0.transport() == transport,
            wrapped.0.listeners() == Seq::<u64>::empty(),
            !wrapped.0.verifies(),
            wrapped.1 == (transport == Transport::MessagePort),
    {
        let start = match transport {
            Transport::MessagePort => true,
            _ => false,
        };
        (Port { transport, verify: false, listeners: Vec::new() }, start)
    }

    /// Whether identity is verified on this port.
    pub fn verify_flag(&self) -> (verify: bool)
        ensures
            verify == self.verifies(),
    {
        self.verify
    }

    /// Turns the verification of identity on or off.
    pub fn set_verification(&mut self, verify: bool)
        ensures
            final(self).verifies() == verify,
            final(self).listeners() == old(self).listeners(),
            final(self).well_formed() == old(self).well_formed(),
            final(self).transport() == old(self).transport(),
    {
        self.verify = verify;
    }

    /// Packs `message` for the transport. The transfer list goes along
    /// exactly where the message moves anything.
    pub fn send<M: Shareable>(&self, message: &M) -> (parcel: Parcel)
        ensures
            parcel@ == parcel_for(*message, self.verifies()),
    {
        match share(message, self.verify) {
            Ok((data, moved)) => {
                if moved.len() > 0 {
                    Parcel { data, transfer: Some(moved) }
                } else {
                    Parcel { data, transfer: None }
                }
            },
            Err(_) => vstd::pervasive::unreached(),
        }
    }

    /// Registers `callback`, to be called once for each message that
    /// arrives. A callback that is registered already stays registered once.
    pub fn add_listener(&mut self, callback: u64) -> (listener: Listener)
        requires
            old(self).well_formed(),
        ensures
            final(self).well_formed(),
            listener.callback() == callback,
            final(self).listeners() == (if old(self).listeners().contains(callback) {
                old(self).listeners()
            } else {
                old(self).listeners().push(callback)
            }),
            final(self).verifies() == old(self).verifies(),
            final(self).transport() == old(self).transport(),
    {
        if !self.is_registered(callback) {
            self.listeners.push(callback);
            proof {
                let before = old(self).listeners@;
                assert forall|i: int, j: int|
                    0 <= i < before.len() + 1 && 0 <= j < before.len() + 1 && i != j implies before.push(
                    callback,
                )[i] != before.push(callback)[j] by {
                    if i < before.len() {
                        assert(before.contains(before[i]));
                    }
                    if j < before.len() {
                        assert(before.contains(before[j]));
                    }
                }
            }
        }
        Listener { callback }
    }

    /// Whether `callback` is registered.
    pub fn is_registered(&self, callback: u64) -> (registered: bool)
        ensures
            registered == self.listeners().contains(callback),
    {
        let mut i: usize = 0;
        while i < self.listeners.len()
            invariant
                i <= self.listeners.len(),
                forall|k: int| 0 <= k < i ==> self.listeners@[k] != callback,
            decreases self.listeners.len() - i,
        {
            if self.listeners[i] == callback {
                return true;
            }
            i += 1;
        }
        false
    }

    /// How many callbacks are registered.
    pub fn listener_count(&self) -> (count: usize)
        ensures
            count == self.listeners().len(),
    {
        self.listeners.len()
    }

    /// The callbacks to call for one message that arrived: every one that is
    /// registered, in the order of registration.
    pub fn dispatch(&self) -> (callbacks: Vec<u64>)
        ensures
            callbacks@ == self.listeners(),
    {
        self.listeners.clone()
    }

    fn remove_listener(&mut self, callback: u64)
        requires
            old(self).well_formed(),
        ensures
            final(self).well_formed(),
            final(self).listeners() == old(self).listeners().remove_value(callback),
            !final(self).listeners().contains(callback),
            final(self).verify == old(self).verify,
            final(self).transport == old(self).transport,
    {
        let mut i: usize = 0;
        while i < self.listeners.len()
            invariant
                i <= self.listeners.len(),
                self.listeners@ == old(self).listeners@,
                self.listeners@.no_duplicates(),
                self.verify == old(self).verify,
                self.transport == old(self).transport,
                forall|k: int| 0 <= k < i ==> self.listeners@[k] != callback,
            decreases self.listeners.len() - i,
        {
            if self.listeners[i] == callback {
                let ghost before = self.listeners@;
                self.listeners.remove(i);
                proof {
                    assert(before.index_of_first(callback) == Some(i as int)) by {
                        before.index_of_first_ensures(callback);
                    }
                    assert(before.remove_value(callback) == before.remove(i as int));
                    before.remove_ensures(i as int);
                    let after = before.remove(i as int);
                    assert forall|k: int| 0 <= k < after.len() implies after[k] != callback by {
                        if k < i {
                            assert(after[k] == before[k]);
                        } else {
                            assert(after[k] == before[k + 1]);
                        }
                    }
                    assert forall|a: int, b: int|
                        0 <= a < after.len() && 0 <= b < after.len() && a != b implies after[a]
                        != after[b] by {
                        let a2 = if a < i {
                            a
                        } else {
                            a + 1
                        };
                        let b2 = if b < i {
                            b
                        } else {
                            b + 1
                        };
                        assert(after[a] == before[a2]);
                        assert(after[b] == before[b2]);
                    }
                }
                return ;
            }
            i += 1;
        }
        proof {
            let before = self.listeners@;
            before.index_of_first_ensures(callback);
            assert(!before.contains(callback));
            assert(before.remove_value(callback) == before);
        }
    }
}

} // verus!
