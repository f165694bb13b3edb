use peers::error::NetworkError;
use peers::handshake::{
    after_answer, after_first_message, after_length, frame, message_length, message_to_send,
    session_opened, version_in_return, Attempt, AttemptStage, AttemptStep, Handshake, StreamEvent,
    HANDSHAKE_PATTERN,
};
use peers::message::Version;

const PSK: [u8; 32] = [7; 32];

fn responder(psk: &[u8]) -> snow::HandshakeState {
    let builder = snow::Builder::new(HANDSHAKE_PATTERN.parse().unwrap());
    let key = builder.generate_keypair().unwrap().private;
    builder.local_private_key(&key).psk(3, psk).build_responder().unwrap()
}

fn sent(step: AttemptStep) -> Vec<u8> {
    match step {
        AttemptStep::SendAndReceive(bytes, 1) => bytes,
        AttemptStep::Send(bytes) => bytes,
        other => panic!("nothing sent: {:?}", other),
    }
}

/// Plays the other side up to its reply, which says `payload`.
fn reply(noise: &mut snow::HandshakeState, first: &[u8], payload: &[u8]) -> Vec<u8> {
    let mut buffer = vec![0u8; 65535];
    assert_eq!(first[0] as usize, first.len() - 1);
    assert_eq!(noise.read_message(&first[1..], &mut buffer).unwrap(), 0);
    let len = noise.write_message(payload, &mut buffer).unwrap();
    buffer.truncate(len);
    buffer
}

#[test]
fn version_as_bytes() {
    let version = Version::new(1, 0x1234);
    let bytes = version.serialize().unwrap();
    assert_eq!(bytes, vec![1, 0, 0, 0, 0, 0, 0, 0, 0x34, 0x12]);
    assert_eq!(Version::deserialize(&bytes), Ok(version));
    let big = Version::new(0x0102_0304_0506_0708, 0xffff);
    assert_eq!(big.serialize().unwrap(), vec![8, 7, 6, 5, 4, 3, 2, 1, 0xff, 0xff]);
}

#[test]
fn version_with_bytes_behind_it() {
    let version = Version::new(77, 4131);
    let mut bytes = version.serialize().unwrap();
    bytes.push(99);
    assert_eq!(Version::deserialize(&bytes), Ok(version));
}

#[test]
fn version_cut_short() {
    assert_eq!(Version::deserialize(&[0; 9]), Err(NetworkError::Encoding));
    assert_eq!(Version::deserialize(&[]), Err(NetworkError::Encoding));
}

#[test]
fn frames() {
    assert_eq!(frame(&vec![5, 6, 7], 2), vec![2, 5, 6]);
    assert_eq!(frame(&vec![5], 0), vec![0]);
    let long = vec![1u8; 300];
    let framed = frame(&long, 300);
    assert_eq!(framed.len(), 301);
    assert_eq!(framed[0], 44);
    assert_eq!(message_length(0), Err(NetworkError::InvalidHandshake));
    assert_eq!(message_length(1), Ok(1));
    assert_eq!(message_length(255), Ok(255));
}

#[test]
fn a_frame_is_read_back() {
    let message = vec![9u8; 48];
    let framed = frame(&message, 48);
    assert_eq!(message_length(framed[0]), Ok(48));
    assert_eq!(&framed[1..], &message[..]);
}

#[test]
fn what_follows_on_noise() {
    let buffer = vec![1, 2, 3];
    assert_eq!(message_to_send(Some(2), &buffer), Ok(vec![2, 1, 2]));
    assert_eq!(message_to_send(None, &buffer), Err(NetworkError::Noise));
    let own = Version::new(1, 4131).serialize().unwrap();
    let theirs = Version::new(5, 6).serialize().unwrap();
    assert_eq!(version_in_return(Some(&theirs), 4131), Ok(own));
    assert_eq!(version_in_return(Some(&theirs[..9]), 4131), Err(NetworkError::Encoding));
    assert_eq!(version_in_return(None, 4131), Err(NetworkError::Noise));
}

#[test]
fn steps_of_an_attempt() {
    assert_eq!(
        after_first_message(Ok(vec![1])),
        (AttemptStage::AwaitingLength, AttemptStep::SendAndReceive(vec![1], 1))
    );
    assert_eq!(
        after_first_message(Err(NetworkError::Noise)),
        (AttemptStage::Over, AttemptStep::End(Err(NetworkError::Noise)))
    );
    assert_eq!(
        after_length(0),
        (AttemptStage::Over, AttemptStep::End(Err(NetworkError::InvalidHandshake)))
    );
    assert_eq!(
        after_length(200),
        (AttemptStage::AwaitingMessage(200), AttemptStep::Receive(200))
    );
    assert_eq!(
        after_answer(Ok(vec![2])),
        (AttemptStage::Closing, AttemptStep::Send(vec![2]))
    );
    assert_eq!(
        after_answer(Err(NetworkError::Encoding)),
        (AttemptStage::Over, AttemptStep::End(Err(NetworkError::Encoding)))
    );
}

#[test]
fn the_key_must_have_its_length() {
    assert!(Handshake::new(&PSK, 1).is_ok());
    assert!(matches!(Handshake::new(&PSK[..31], 1), Err(NetworkError::Noise)));
    let mut attempt = Attempt::new(vec![7; 33], 1);
    let step = attempt.advance(StreamEvent::Opened);
    assert_eq!(step, AttemptStep::End(Err(NetworkError::Noise)));
}

#[test]
fn a_handshake_from_start_to_end() {
    let mut other = responder(&PSK);
    let mut buffer = vec![0u8; 65535];
    let mut attempt = Attempt::new(PSK.to_vec(), 4131);

    let first = sent(attempt.advance(StreamEvent::Opened));
    // An ephemeral key and an authentication tag.
    assert_eq!(first.len(), 1 + 48);
    let their_version = Version::new(3, 9000).serialize().unwrap();
    let second = reply(&mut other, &first, &their_version);
    assert_eq!(second.len(), 106);

    let step = attempt.advance(StreamEvent::Received(vec![second.len() as u8]));
    assert_eq!(step, AttemptStep::Receive(106));
    let third = sent(attempt.advance(StreamEvent::Received(second)));
    assert_eq!(third[0] as usize, third.len() - 1);
    let len = other.read_message(&third[1..], &mut buffer).unwrap();
    assert_eq!(Version::deserialize(&buffer[..len]), Ok(Version::new(1, 4131)));
    assert_eq!(len, 10);

    assert_eq!(attempt.advance(StreamEvent::Sent), AttemptStep::End(Ok(())));
    assert_eq!(attempt.stage, AttemptStage::Over);
    let mut session = attempt.session.unwrap();
    let mut theirs = other.into_transport_mode().unwrap();
    let len = session.write_message(b"hello", &mut buffer).unwrap();
    let message = buffer[..len].to_vec();
    let len = theirs.read_message(&message, &mut buffer).unwrap();
    assert_eq!(&buffer[..len], b"hello");
}

#[test]
fn two_handshakes_differ() {
    let mut first = Handshake::new(&PSK, 1).unwrap();
    let mut second = Handshake::new(&PSK, 1).unwrap();
    assert_ne!(first.first_message().unwrap(), second.first_message().unwrap());
}

#[test]
fn a_reply_without_length_is_refused() {
    let mut attempt = Attempt::new(PSK.to_vec(), 4131);
    sent(attempt.advance(StreamEvent::Opened));
    let step = attempt.advance(StreamEvent::Received(vec![0]));
    assert_eq!(step, AttemptStep::End(Err(NetworkError::InvalidHandshake)));
    assert_eq!(attempt.stage, AttemptStage::Over);
    assert!(attempt.session.is_none());
}

#[test]
fn a_forged_reply_is_refused() {
    let mut attempt = Attempt::new(PSK.to_vec(), 4131);
    sent(attempt.advance(StreamEvent::Opened));
    attempt.advance(StreamEvent::Received(vec![106]));
    let step = attempt.advance(StreamEvent::Received(vec![3; 106]));
    assert_eq!(step, AttemptStep::End(Err(NetworkError::Noise)));
}

#[test]
fn a_reply_without_a_version_is_refused() {
    let mut other = responder(&PSK);
    let mut attempt = Attempt::new(PSK.to_vec(), 4131);
    let first = sent(attempt.advance(StreamEvent::Opened));
    let second = reply(&mut other, &first, &[1, 2, 3]);
    attempt.advance(StreamEvent::Received(vec![second.len() as u8]));
    let step = attempt.advance(StreamEvent::Received(second));
    assert_eq!(step, AttemptStep::End(Err(NetworkError::Encoding)));
}

#[test]
fn another_key_is_found_out_by_the_other_side() {
    let mut other = responder(&[8; 32]);
    let mut attempt = Attempt::new(PSK.to_vec(), 4131);
    let first = sent(attempt.advance(StreamEvent::Opened));
    let version = Version::new(1, 1).serialize().unwrap();
    let second = reply(&mut other, &first, &version);
    attempt.advance(StreamEvent::Received(vec![second.len() as u8]));
    let third = sent(attempt.advance(StreamEvent::Received(second)));
    let mut buffer = vec![0u8; 65535];
    assert!(other.read_message(&third[1..], &mut buffer).is_err());
}

#[test]
fn messages_go_in_turns() {
    let mut other = responder(&PSK);
    let mut handshake = Handshake::new(&PSK, 4131).unwrap();
    assert_eq!(handshake.answer(&[0; 106]), Err(NetworkError::Noise));
    let first = handshake.first_message().unwrap();
    assert_eq!(handshake.first_message(), Err(NetworkError::Noise));
    assert_eq!(handshake.answer(&[0; 106]), Err(NetworkError::Noise));
    let second = reply(&mut other, &first, &Version::new(1, 2).serialize().unwrap());
    let third = handshake.answer(&second).unwrap();
    assert_eq!(third.len(), 1 + 74);
    assert_eq!(handshake.first_message(), Err(NetworkError::Noise));
    assert_eq!(handshake.answer(&second), Err(NetworkError::Noise));
    assert!(handshake.finish().is_ok());
}

#[test]
fn a_handshake_cannot_finish_early() {
    let mut handshake = Handshake::new(&PSK, 1).unwrap();
    handshake.first_message().unwrap();
    assert!(matches!(handshake.finish(), Err(NetworkError::Noise)));
}

#[test]
fn a_finished_handshake_gives_its_session() {
    let mut other = responder(&PSK);
    let mut buffer = vec![0u8; 65535];
    let mut handshake = Handshake::new(&PSK, 4131).unwrap();
    let first = handshake.first_message().unwrap();
    let second = reply(&mut other, &first, &Version::new(1, 2).serialize().unwrap());
    let third = handshake.answer(&second).unwrap();
    other.read_message(&third[1..], &mut buffer).unwrap();

    let mut session = handshake.finish().unwrap();
    let opened = Some(other.into_transport_mode().unwrap());
    let mut theirs = session_opened(opened).unwrap();
    let len = theirs.write_message(b"hello", &mut buffer).unwrap();
    let message = buffer[..len].to_vec();
    let len = session.read_message(&message, &mut buffer).unwrap();
    assert_eq!(&buffer[..len], b"hello");
    assert!(matches!(session_opened(None), Err(NetworkError::Noise)));
}

#[test]
fn a_failing_stream_ends_the_attempt() {
    let mut attempt = Attempt::new(PSK.to_vec(), 4131);
    assert_eq!(
        attempt.advance(StreamEvent::Failed),
        AttemptStep::End(Err(NetworkError::Io))
    );
    let mut attempt = Attempt::new(PSK.to_vec(), 4131);
    sent(attempt.advance(StreamEvent::Opened));
    assert_eq!(
        attempt.advance(StreamEvent::Failed),
        AttemptStep::End(Err(NetworkError::Io))
    );
    assert_eq!(attempt.stage, AttemptStage::Over);
}
