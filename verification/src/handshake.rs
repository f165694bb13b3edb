//! The initiator's side of the handshake that opens a connection: three messages of the Noise
//! pattern `XX` with a pre-shared key in the third, each sent behind a byte that holds its length.

use snow::resolvers::SodiumResolver;
use vstd::prelude::*;

use crate::error::NetworkError;
use crate::message::{lemma_version_round_trip, Version};

verus! {

/// The Noise protocol that the handshake follows.
pub const HANDSHAKE_PATTERN: &'static str = "Noise_XXpsk3_25519_ChaChaPoly_SHA256";

/// Where in the pattern the pre-shared key enters.
pub const PSK_POSITION: u8 = 3;

/// The length of the pre-shared key.
pub const PSK_LEN: usize = 32;

/// The length of the longest Noise message.
pub const NOISE_BUF_LEN: usize = 65535;

/// The version of the protocol that the node speaks.
pub const PROTOCOL_VERSION: u64 = 1;

/// A handshake of the `snow` crate.
#[verifier::external_type_specification]
#[verifier::external_body]
pub struct ExHandshakeState(snow::HandshakeState);

/// An encrypted session of the `snow` crate.
#[verifier::external_type_specification]
#[verifier::external_body]
pub struct ExTransportState(snow::TransportState);

/// The error of the `snow` crate.
#[verifier::external_type_specification]
#[verifier::external_body]
pub struct ExSnowError(snow::Error);

/// How many of the three messages have gone through, in a handshake whose initiator was built with
/// this pattern, a static key, and a pre-shared key where the pattern asks for it. For any other
/// `snow::HandshakeState` the number is above three.
pub uninterp spec fn noise_step(noise: snow::HandshakeState) -> nat;

/// The pre-shared key that a `snow::HandshakeState` was built with.
pub uninterp spec fn noise_psk(noise: snow::HandshakeState) -> Seq<u8>;

/// The key that the other side has sent agrees with this side's static key: the Diffie-Hellman
/// function is defined on the two. It rests on the two keys in the `snow::HandshakeState` alone.
pub uninterp spec fn noise_agrees(noise: snow::HandshakeState) -> bool;

/// The payload that `snow::HandshakeState::read_message` finds in `message`, if it accepts it.
pub uninterp spec fn noise_reads(noise: snow::HandshakeState, message: Seq<u8>) -> Option<Seq<u8>>;

/// The state after `snow::HandshakeState::read_message` has accepted `message`. A read draws no
/// random numbers.
pub uninterp spec fn noise_after_read(
    noise: snow::HandshakeState,
    message: Seq<u8>,
) -> snow::HandshakeState;

/// `snow::HandshakeState::write_message` can write `message` for `payload` from the state `before`,
/// and then leaves the state `after`. Which message and which state these are rests on the key that
/// the first message draws and the state keeps.
pub uninterp spec fn noise_writes(
    before: snow::HandshakeState,
    payload: Seq<u8>,
    message: Seq<u8>,
    after: snow::HandshakeState,
) -> bool;

/// The session that `snow::HandshakeState::into_transport_mode` makes of a finished handshake.
pub uninterp spec fn noise_session(noise: snow::HandshakeState) -> snow::TransportState;

/// How many bytes a message of this side has besides its payload: a key and a tag in the first, and
/// one more tag in the third, where the key is encrypted, too.
pub open spec fn overhead(step: nat) -> nat {
    if step == 0 {
        48
    } else {
        64
    }
}

/// Sets up an initiator with `snow::Builder`: `with_resolver`, a fresh key pair from
/// `generate_keypair`, `local_private_key`, `psk` and `build_initiator`.
///
/// Trusted: with this pattern, and the key at the position that it names, the only thing that the
/// builder can object to is a pre-shared key of the wrong length. The handshake starts before its
/// first message and keeps the pre-shared key. The key pair is left to chance. `SodiumResolver`
/// panics where the sodium library cannot be initialised on the machine.
#[verifier::external_body]
fn build_initiator(pattern: &str, psk_position: u8, psk: &[u8]) -> (r: Result<
    snow::HandshakeState,
    snow::Error,
>)
    requires
        pattern@ == HANDSHAKE_PATTERN@,
        psk_position == PSK_POSITION,
    ensures
        r is Ok <==> psk@.len() == PSK_LEN,
        r matches Ok(noise) ==> noise_step(noise) == 0 && noise_psk(noise) == psk@,
{
    let builder = snow::Builder::with_resolver(pattern.parse()?, Box::new(SodiumResolver));
    let static_key = builder.generate_keypair()?.private;
    builder.local_private_key(&static_key).psk(psk_position, psk).build_initiator()
}

/// Writes the next message of a handshake with `snow::HandshakeState::write_message`.
///
/// Trusted: the initiator writes the first message and the third, where there is room for the
/// payload, and the third only where the two sides' keys agree. The message lies at the start of
/// the buffer and has a fixed number of bytes besides the payload. The message and the state that is
/// left belong together: they are what one write can give from the state before. A write that fails
/// leaves the handshake where it was. The pre-shared key stays the same.
#[verifier::external_body]
fn write_message(
    noise: &mut snow::HandshakeState,
    payload: &[u8],
    buffer: &mut Vec<u8>,
) -> (r: Result<usize, snow::Error>)
    requires
        noise_step(*old(noise)) <= 3,
        old(buffer)@.len() >= NOISE_BUF_LEN,
    ensures
        final(buffer)@.len() == old(buffer)@.len(),
        noise_psk(*final(noise)) == noise_psk(*old(noise)),
        r is Ok <==> (noise_step(*old(noise)) == 0 || noise_step(*old(noise)) == 2 && noise_agrees(
            *old(noise),
        )) && payload@.len() + overhead(noise_step(*old(noise))) <= NOISE_BUF_LEN,
        r matches Ok(len) ==> len == payload@.len() + overhead(noise_step(*old(noise)))
            && noise_writes(*old(noise), payload@, final(buffer)@.take(len as int), *final(noise))
            && noise_step(*final(noise)) == noise_step(*old(noise)) + 1,
        r is Err ==> noise_step(*final(noise)) == noise_step(*old(noise)),
{
    noise.write_message(payload, buffer)
}

/// Reads the next message of a handshake with `snow::HandshakeState::read_message`.
///
/// Trusted: the initiator reads the second message only. What it makes of a message, and the state
/// that accepting it leaves, are functions of the handshake and the message. The payload lies at the
/// start of the buffer, and the message has 96 bytes besides it: two keys and two tags. A read that
/// fails leaves the handshake where it was. The pre-shared key stays the same.
#[verifier::external_body]
fn read_message(
    noise: &mut snow::HandshakeState,
    message: &[u8],
    buffer: &mut Vec<u8>,
) -> (r: Result<usize, snow::Error>)
    requires
        noise_step(*old(noise)) <= 3,
        old(buffer)@.len() >= NOISE_BUF_LEN,
    ensures
        final(buffer)@.len() == old(buffer)@.len(),
        noise_psk(*final(noise)) == noise_psk(*old(noise)),
        r is Ok <==> noise_reads(*old(noise), message@) is Some,
        r matches Ok(len) ==> len + 96 == message@.len() && len <= final(buffer)@.len()
            && noise_reads(*old(noise), message@) == Some(final(buffer)@.take(len as int))
            && noise_step(*old(noise)) == 1 && noise_step(*final(noise)) == 2 && *final(noise)
            == noise_after_read(*old(noise), message@),
        r is Err ==> noise_step(*final(noise)) == noise_step(*old(noise)),
{
    noise.read_message(message, buffer)
}

/// Turns a finished handshake into a session with `snow::HandshakeState::into_transport_mode`.
///
/// Trusted: the call succeeds exactly where all three messages have gone through. The session is a
/// function of the handshake.
#[verifier::external_body]
fn into_transport_mode(noise: snow::HandshakeState) -> (r: Result<
    snow::TransportState,
    snow::Error,
>)
    requires
        noise_step(noise) <= 3,
    ensures
        r is Ok <==> noise_step(noise) == 3,
        r matches Ok(session) ==> session == noise_session(noise),
{
    noise.into_transport_mode()
}

/// A message as it is sent: the low byte of its length, then the message.
pub open spec fn framed(message: Seq<u8>) -> Seq<u8> {
    seq![(message.len() % 256) as u8] + message
}

/// What a node that listens on `listening_port` says of itself.
pub open spec fn own_version(listening_port: u16) -> Version {
    Version { version: PROTOCOL_VERSION, listening_port }
}

/// The first `len` bytes of `buffer` as they are sent.
pub fn frame(buffer: &Vec<u8>, len: usize) -> (r: Vec<u8>)
    requires
        len <= buffer@.len(),
    ensures
        r@ == framed(buffer@.take(len as int)),
{
    let mut bytes: Vec<u8> = Vec::new();
    bytes.push((len % 256) as u8);
    let mut i: usize = 0;
    while i < len
        invariant
            i <= len,
            len <= buffer@.len(),
            bytes@ =~= seq![(len % 256) as u8] + buffer@.take(i as int),
        decreases len - i,
    {
        bytes.push(buffer[i]);
        i += 1;
    }
    bytes
}

/// Reads the byte that precedes a message: the length of the message, which must not be zero.
pub fn message_length(byte: u8) -> (r: Result<usize, NetworkError>)
    ensures
        r == if byte == 0 {
            Err::<usize, NetworkError>(NetworkError::InvalidHandshake)
        } else {
            Ok::<usize, NetworkError>(byte as usize)
        },
{
    if byte == 0 {
        return Err(NetworkError::InvalidHandshake);
    }
    Ok(byte as usize)
}

/// Decides what is sent of the first bytes of the buffer, as many as a write has put there.
/// `None` stands for a write that failed.
pub fn message_to_send(written: Option<usize>, buffer: &Vec<u8>) -> (r: Result<
    Vec<u8>,
    NetworkError,
>)
    requires
        written matches Some(len) ==> len <= buffer@.len(),
    ensures
        match (written, r) {
            (Some(len), Ok(bytes)) => bytes@ == framed(buffer@.take(len as int)),
            (None, Err(e)) => e == NetworkError::Noise,
            _ => false,
        },
{
    match written {
        Some(len) => Ok(frame(buffer, len)),
        None => Err(NetworkError::Noise),
    }
}

/// Decides what a node that listens on `listening_port` says of itself in return for the payload
/// that it has read: its own version, where the payload is a version. `None` stands for a read
/// that failed.
pub fn version_in_return(read: Option<&[u8]>, listening_port: u16) -> (r: Result<
    Vec<u8>,
    NetworkError,
>)
    ensures
        match read {
            Some(payload) => if payload@.len() >= 10 {
                r matches Ok(bytes) && bytes@ == own_version(listening_port).wire()
            } else {
                r matches Err(e) && e == NetworkError::Encoding
            },
            None => r matches Err(e) && e == NetworkError::Noise,
        },
{
    match read {
        Some(payload) => match Version::deserialize(payload) {
            Ok(_peer_version) => Version::new(PROTOCOL_VERSION, listening_port).serialize(),
            Err(e) => Err(e),
        },
        None => Err(NetworkError::Noise),
    }
}

/// Decides what a handshake ends with, once the Noise protocol has been asked for the session:
/// with that session. `None` stands for a handshake that was not finished.
pub fn session_opened(opened: Option<snow::TransportState>) -> (r: Result<
    snow::TransportState,
    NetworkError,
>)
    ensures
        match opened {
            Some(session) => r == Ok::<snow::TransportState, NetworkError>(session),
            None => r == Err::<snow::TransportState, NetworkError>(NetworkError::Noise),
        },
{
    match opened {
        Some(session) => Ok(session),
        None => Err(NetworkError::Noise),
    }
}

/// A handshake that this node has initiated.
pub struct Handshake {
    /// The state of the Noise protocol.
    noise: snow::HandshakeState,
    /// The port on which this node listens.
    listening_port: u16,
}

impl Handshake {
    /// The port on which this node listens.
    pub closed spec fn port(&self) -> u16 {
        self.listening_port
    }

    /// The pre-shared key.
    pub closed spec fn key(&self) -> Seq<u8> {
        noise_psk(self.noise)
    }

    /// How many of the three messages have gone through.
    pub closed spec fn step(&self) -> nat {
        noise_step(self.noise)
    }

    /// The key that the other side has sent agrees with this side's.
    pub closed spec fn agrees(&self) -> bool {
        noise_agrees(self.noise)
    }

    /// The payload that the handshake finds in `message`, if it accepts it.
    pub closed spec fn reads(&self, message: Seq<u8>) -> Option<Seq<u8>> {
        noise_reads(self.noise, message)
    }

    /// From this handshake a message with `payload` in it can be written and sent as `bytes`, and
    /// `after` is the handshake that this leaves.
    pub closed spec fn writes(&self, payload: Seq<u8>, bytes: Seq<u8>, after: &Handshake) -> bool {
        exists|message: Seq<u8>|
            message.len() == payload.len() + overhead(self.step()) && noise_writes(
                self.noise,
                payload,
                message,
                after.noise,
            ) && bytes == #[trigger] framed(message)
    }

    /// The handshake that is left once `message` has been read and accepted.
    pub closed spec fn after_read(&self, message: Seq<u8>) -> Handshake {
        Handshake { noise: noise_after_read(self.noise, message), ..*self }
    }

    /// The session that the handshake opens once it is finished.
    pub closed spec fn session(&self) -> snow::TransportState {
        noise_session(self.noise)
    }

    /// No more than the three messages have gone through.
    pub open spec fn wf(&self) -> bool {
        self.step() <= 3
    }

    /// It is this side's turn to write, and it can.
    pub open spec fn may_write(&self) -> bool {
        self.step() == 0 || self.step() == 2 && self.agrees()
    }

    /// The key and the port are the same.
    pub open spec fn same_settings(&self, other: &Handshake) -> bool {
        self.key() == other.key() && self.port() == other.port()
    }

    /// Sets up a handshake with a pre-shared key and a fresh static key.
    pub fn new(psk: &[u8], listening_port: u16) -> (r: Result<Handshake, NetworkError>)
        ensures
            match r {
                Ok(handshake) => psk@.len() == PSK_LEN && handshake.port() == listening_port
                    && handshake.key() == psk@ && handshake.step() == 0,
                Err(e) => psk@.len() != PSK_LEN && e == NetworkError::Noise,
            },
    {
        match build_initiator(HANDSHAKE_PATTERN, PSK_POSITION, psk) {
            Ok(noise) => Ok(Handshake { noise, listening_port }),
            Err(_) => Err(NetworkError::Noise),
        }
    }

    /// Writes a message with the given payload, ready to be sent.
    fn write(&mut self, payload: &[u8]) -> (r: Result<Vec<u8>, NetworkError>)
        requires
            old(self).wf(),
            payload@.len() + 64 <= NOISE_BUF_LEN,
        ensures
            final(self).wf(),
            final(self).same_settings(old(self)),
            match r {
                Ok(bytes) => old(self).may_write() && old(self).writes(
                    payload@,
                    bytes@,
                    final(self),
                ) && final(self).step() == old(self).step() + 1,
                Err(e) => !old(self).may_write() && e == NetworkError::Noise && final(self).step()
                    == old(self).step(),
            },
    {
        let mut buffer: Vec<u8> = vec![0u8; NOISE_BUF_LEN];
        let written: Option<usize> = match write_message(&mut self.noise, payload, &mut buffer) {
            Ok(len) => Some(len),
            Err(_) => None,
        };
        message_to_send(written, &buffer)
    }

    /// Writes the first message, which carries no payload.
    pub fn first_message(&mut self) -> (r: Result<Vec<u8>, NetworkError>)
        requires
            old(self).wf(),
        ensures
            final(self).wf(),
            final(self).same_settings(old(self)),
            match r {
                Ok(bytes) => old(self).may_write() && old(self).writes(
                    Seq::empty(),
                    bytes@,
                    final(self),
                ) && final(self).step() == old(self).step() + 1,
                Err(e) => !old(self).may_write() && e == NetworkError::Noise && final(self).step()
                    == old(self).step(),
            },
    {
        let payload: Vec<u8> = Vec::new();
        assert(payload@ =~= Seq::empty());
        self.write(payload.as_slice())
    }

    /// Reads the second message, which carries the version of the other side, and writes the third,
    /// which carries that of this node.
    pub fn answer(&mut self, message: &[u8]) -> (r: Result<Vec<u8>, NetworkError>)
        requires
            old(self).wf(),
        ensures
            final(self).wf(),
            final(self).same_settings(old(self)),
            match old(self).reads(message@) {
                None => r == Err::<Vec<u8>, NetworkError>(NetworkError::Noise)
                    && final(self).step() == old(self).step(),
                Some(payload) => old(self).step() == 1 && old(self).after_read(message@).step() == 2
                    && payload.len() + 96 == message@.len() && (if payload.len() < 10 {
                    r == Err::<Vec<u8>, NetworkError>(NetworkError::Encoding)
                        && *final(self) == old(self).after_read(message@) && final(self).step() == 2
                } else if old(self).after_read(message@).agrees() {
                    r matches Ok(bytes) && old(self).after_read(message@).writes(
                        own_version(old(self).port()).wire(),
                        bytes@,
                        final(self),
                    ) && final(self).step() == 3
                } else {
                    r == Err::<Vec<u8>, NetworkError>(NetworkError::Noise) && final(self).step()
                        == 2
                }),
            },
    {
        let mut buffer: Vec<u8> = vec![0u8; NOISE_BUF_LEN];
        let in_return = match read_message(&mut self.noise, message, &mut buffer) {
            Ok(len) => {
                buffer.truncate(len);
                version_in_return(Some(buffer.as_slice()), self.listening_port)
            },
            Err(_) => version_in_return(None, self.listening_port),
        };
        match in_return {
            Ok(payload) => {
                proof {
                    lemma_version_round_trip(own_version(self.listening_port), Seq::empty());
                }
                self.write(payload.as_slice())
            },
            Err(e) => Err(e),
        }
    }

    /// Ends the handshake and opens the encrypted session, once all messages have gone through.
    pub fn finish(self) -> (r: Result<snow::TransportState, NetworkError>)
        requires
            self.wf(),
        ensures
            r is Ok <==> self.step() == 3,
            r matches Ok(session) ==> session == self.session(),
            r matches Err(e) ==> e == NetworkError::Noise,
    {
        let opened: Option<snow::TransportState> = match into_transport_mode(self.noise) {
            Ok(session) => Some(session),
            Err(_) => None,
        };
        session_opened(opened)
    }
}

/// What is framed can be read back: the first byte of a message that is neither empty nor longer
/// than a byte can tell is its length, and the message follows.
pub proof fn lemma_frame_round_trip(message: Seq<u8>)
    requires
        0 < message.len() < 256,
    ensures
        framed(message)[0] == message.len(),
        framed(message)[0] != 0,
        framed(message).drop_first() == message,
{
    assert(framed(message).drop_first() =~= message);
}

/// What this side sends can be read back: the first byte tells how many bytes follow.
pub proof fn law_sent_message_tells_length(
    before: Handshake,
    payload: Seq<u8>,
    bytes: Seq<u8>,
    after: Handshake,
)
    requires
        before.writes(payload, bytes, &after),
        payload.len() <= 191,
    ensures
        bytes.len() == 1 + payload.len() + overhead(before.step()),
        bytes[0] == bytes.len() - 1,
{
    let message = choose|message: Seq<u8>|
        message.len() == payload.len() + overhead(before.step()) && noise_writes(
            before.noise,
            payload,
            message,
            after.noise,
        ) && bytes == #[trigger] framed(message);
    lemma_frame_round_trip(message);
}

/// How the task that performs a handshake ended.
#[derive(Clone, Copy, Debug, PartialEq, Eq)]
pub enum HandshakeEnd {
    /// It ran to its end within the time limit.
    Finished(Result<(), NetworkError>),
    /// It was aborted or panicked.
    Aborted,
    /// The time limit passed first.
    TimedOut,
}

/// What a connection attempt comes to, by the end of its handshake.
pub open spec fn result_of(end: HandshakeEnd) -> Result<(), NetworkError> {
    match end {
        HandshakeEnd::Finished(result) => result,
        HandshakeEnd::Aborted => Err(NetworkError::InvalidHandshake),
        HandshakeEnd::TimedOut => Err(NetworkError::HandshakeTimeout),
    }
}

/// Judges a connection attempt by the end of its handshake.
pub fn handshake_result(end: HandshakeEnd) -> (r: Result<(), NetworkError>)
    ensures
        r == result_of(end),
{
    match end {
        HandshakeEnd::Finished(result) => result,
        HandshakeEnd::Aborted => Err(NetworkError::InvalidHandshake),
        HandshakeEnd::TimedOut => Err(NetworkError::HandshakeTimeout),
    }
}

/// How far a connection attempt has come.
#[derive(Clone, Copy, Debug, PartialEq, Eq)]
pub enum AttemptStage {
    /// The stream is being opened.
    Opening,
    /// The first message is out, and the byte before the second is awaited.
    AwaitingLength,
    /// The second message, of the given length, is awaited.
    AwaitingMessage(usize),
    /// The third message is being sent.
    Closing,
    /// The attempt is over.
    Over,
}

/// What has become of the last step of a connection attempt.
#[derive(Clone, Debug, PartialEq, Eq)]
pub enum StreamEvent {
    /// The stream is open.
    Opened,
    /// The bytes that were waited for.
    Received(Vec<u8>),
    /// The bytes are sent.
    Sent,
    /// Opening, reading or writing failed.
    Failed,
}

/// The next step of a connection attempt.
#[derive(Debug, PartialEq, Eq)]
pub enum AttemptStep {
    /// Send the bytes, and then wait for so many.
    SendAndReceive(Vec<u8>, usize),
    /// Wait for so many bytes.
    Receive(usize),
    /// Send the bytes.
    Send(Vec<u8>),
    /// The attempt is over.
    End(Result<(), NetworkError>),
}

/// The event can follow on what was asked for at the given stage.
pub open spec fn can_follow(stage: AttemptStage, event: StreamEvent) -> bool {
    match (stage, event) {
        (AttemptStage::Over, _) => false,
        (_, StreamEvent::Failed) => true,
        (AttemptStage::Opening, StreamEvent::Opened) => true,
        (AttemptStage::AwaitingLength, StreamEvent::Received(bytes)) => bytes@.len() == 1,
        (AttemptStage::AwaitingMessage(len), StreamEvent::Received(bytes)) => bytes@.len() == len,
        (AttemptStage::Closing, StreamEvent::Sent) => true,
        _ => false,
    }
}

/// Goes on after the first message has been written, or has not.
pub fn after_first_message(written: Result<Vec<u8>, NetworkError>) -> (r: (
    AttemptStage,
    AttemptStep,
))
    ensures
        r == match written {
            Ok(bytes) => (AttemptStage::AwaitingLength, AttemptStep::SendAndReceive(bytes, 1)),
            Err(e) => (AttemptStage::Over, AttemptStep::End(Err(e))),
        },
{
    match written {
        Ok(bytes) => (AttemptStage::AwaitingLength, AttemptStep::SendAndReceive(bytes, 1)),
        Err(e) => (AttemptStage::Over, AttemptStep::End(Err(e))),
    }
}

/// Goes on after the byte before the second message.
pub fn after_length(byte: u8) -> (r: (AttemptStage, AttemptStep))
    ensures
        r == if byte == 0 {
            (AttemptStage::Over, AttemptStep::End(Err(NetworkError::InvalidHandshake)))
        } else {
            (AttemptStage::AwaitingMessage(byte as usize), AttemptStep::Receive(byte as usize))
        },
{
    match message_length(byte) {
        Ok(len) => (AttemptStage::AwaitingMessage(len), AttemptStep::Receive(len)),
        Err(e) => (AttemptStage::Over, AttemptStep::End(Err(e))),
    }
}

/// Goes on after the third message has been written, or has not.
pub fn after_answer(written: Result<Vec<u8>, NetworkError>) -> (r: (AttemptStage, AttemptStep))
    ensures
        r == match written {
            Ok(bytes) => (AttemptStage::Closing, AttemptStep::Send(bytes)),
            Err(e) => (AttemptStage::Over, AttemptStep::End(Err(e))),
        },
{
    match written {
        Ok(bytes) => (AttemptStage::Closing, AttemptStep::Send(bytes)),
        Err(e) => (AttemptStage::Over, AttemptStep::End(Err(e))),
    }
}

/// A connection attempt on an open stream: the handshake, one step at a time.
pub struct Attempt {
    /// How far the attempt has come.
    pub stage: AttemptStage,
    /// The pre-shared key.
    pub psk: Vec<u8>,
    /// The port on which this node listens.
    pub listening_port: u16,
    /// The handshake, while it goes on.
    pub handshake: Option<Handshake>,
    /// The encrypted session, once the handshake has succeeded.
    pub session: Option<snow::TransportState>,
}

impl Attempt {
    /// While the handshake goes on it is there, with the node's key and port, and as many messages
    /// have gone through as the stage tells.
    pub open spec fn wf(&self) -> bool {
        match self.stage {
            AttemptStage::Opening | AttemptStage::Over => true,
            AttemptStage::Closing => self.handshake matches Some(handshake) && self.owns(handshake)
                && handshake.step() == 3,
            _ => self.handshake matches Some(handshake) && self.owns(handshake)
                && handshake.step() == 1,
        }
    }

    /// The handshake is one with the node's key and port.
    pub open spec fn owns(&self, handshake: Handshake) -> bool {
        handshake.key() == self.psk@ && handshake.port() == self.listening_port
    }

    /// The key and the port are the same.
    pub open spec fn same_settings(&self, other: &Attempt) -> bool {
        self.psk == other.psk && self.listening_port == other.listening_port
    }

    /// `bytes` are the first message of the handshake that goes on in this attempt: a fresh
    /// handshake with the node's key and port has written them, and has come to this one thereby.
    pub open spec fn has_begun(&self, bytes: Seq<u8>) -> bool {
        self.handshake matches Some(handshake) && exists|start: Handshake|
            start.step() == 0 && self.owns(start) && #[trigger] start.writes(
                Seq::empty(),
                bytes,
                &handshake,
            )
    }

    /// The step ends the attempt with the error.
    pub open spec fn ends_with(&self, step: AttemptStep, error: NetworkError) -> bool {
        self.stage == AttemptStage::Over && step == AttemptStep::End(Err(error))
    }

    /// Prepares an attempt.
    pub fn new(psk: Vec<u8>, listening_port: u16) -> (r: Attempt)
        ensures
            r.wf(),
            r.stage == AttemptStage::Opening,
            r.psk == psk,
            r.listening_port == listening_port,
            r.session is None,
    {
        Attempt {
            stage: AttemptStage::Opening,
            psk,
            listening_port,
            handshake: None,
            session: None,
        }
    }

    /// The event takes the attempt from `self` to `post`, with `step` as the next step.
    pub open spec fn advances(
        &self,
        event: StreamEvent,
        post: &Attempt,
        step: AttemptStep,
    ) -> bool {
        &&& post.same_settings(self)
        &&& (event is Failed ==> post.ends_with(step, NetworkError::Io))
        &&& match (self.stage, event) {
            (AttemptStage::Opening, StreamEvent::Opened) => if self.psk@.len() == PSK_LEN {
                &&& post.stage == AttemptStage::AwaitingLength
                &&& step matches AttemptStep::SendAndReceive(bytes, count) && count == 1
                    && post.has_begun(bytes@)
            } else {
                post.ends_with(step, NetworkError::Noise)
            },
            (AttemptStage::AwaitingLength, StreamEvent::Received(bytes)) => if bytes@[0] == 0 {
                post.ends_with(step, NetworkError::InvalidHandshake)
            } else {
                &&& post.stage == AttemptStage::AwaitingMessage(bytes@[0] as usize)
                &&& step == AttemptStep::Receive(bytes@[0] as usize)
            },
            (
                AttemptStage::AwaitingMessage(_),
                StreamEvent::Received(bytes),
            ) => match self.handshake->0.reads(bytes@) {
                None => post.ends_with(step, NetworkError::Noise),
                Some(payload) => self.handshake->0.after_read(bytes@).step() == 2 && (
                if payload.len() < 10 {
                    post.ends_with(step, NetworkError::Encoding)
                } else if self.handshake->0.after_read(bytes@).agrees() {
                    &&& post.stage == AttemptStage::Closing
                    &&& post.handshake is Some
                    &&& step matches AttemptStep::Send(answer) && self.handshake->0.after_read(
                        bytes@,
                    ).writes(
                        own_version(self.listening_port).wire(),
                        answer@,
                        &post.handshake->0,
                    )
                } else {
                    post.ends_with(step, NetworkError::Noise)
                }),
            },
            (AttemptStage::Closing, StreamEvent::Sent) => {
                &&& post.stage == AttemptStage::Over
                &&& step == AttemptStep::End(Ok(()))
                &&& post.session == Some(self.handshake->0.session())
            },
            _ => true,
        }
        &&& (self.stage is AwaitingLength ==> post.handshake == self.handshake)
        &&& (!(self.stage is Closing) ==> post.session == self.session)
    }

    /// Takes the attempt one step further. Every failure of the stream ends it, and so does a
    /// message that the Noise protocol does not accept, that holds no version, or whose key does not
    /// agree with the node's.
    pub fn advance(&mut self, event: StreamEvent) -> (step: AttemptStep)
        requires
            old(self).wf(),
            can_follow(old(self).stage, event),
        ensures
            final(self).wf(),
            old(self).advances(event, final(self), step),
    {
        match (self.stage, event) {
            (AttemptStage::Opening, StreamEvent::Opened) => {
                let written = match Handshake::new(self.psk.as_slice(), self.listening_port) {
                    Ok(mut handshake) => {
                        let written = handshake.first_message();
                        self.handshake = Some(handshake);
                        written
                    },
                    Err(e) => Err(e),
                };
                let (stage, step) = after_first_message(written);
                self.stage = stage;
                step
            },
            (AttemptStage::AwaitingLength, StreamEvent::Received(bytes)) => {
                let (stage, step) = after_length(bytes[0]);
                self.stage = stage;
                step
            },
            (AttemptStage::AwaitingMessage(_), StreamEvent::Received(bytes)) => {
                let written = match self.handshake.take() {
                    Some(mut handshake) => {
                        let written = handshake.answer(bytes.as_slice());
                        self.handshake = Some(handshake);
                        written
                    },
                    None => Err(NetworkError::Noise),
                };
                let (stage, step) = after_answer(written);
                self.stage = stage;
                step
            },
            (AttemptStage::Closing, StreamEvent::Sent) => {
                let finished = match self.handshake.take() {
                    Some(handshake) => handshake.finish(),
                    None => Err(NetworkError::Noise),
                };
                self.stage = AttemptStage::Over;
                match finished {
                    Ok(session) => {
                        self.session = Some(session);
                        AttemptStep::End(Ok(()))
                    },
                    Err(e) => AttemptStep::End(Err(e)),
                }
            },
            _ => {
                self.stage = AttemptStage::Over;
                AttemptStep::End(Err(NetworkError::Io))
            },
        }
    }
}

} // verus!
