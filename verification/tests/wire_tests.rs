//! The frame codec and the sealed transport, exercised end to end with the
//! real AEAD underneath.

use distant::frame::{encode_frame, DistantCodec};
use distant::transport::{Transport, TransportError, KEY_LEN, SEAL_OVERHEAD};

fn test_key() -> Vec<u8> {
    (0u8..KEY_LEN as u8).collect()
}

#[test]
fn frame_round_trip() {
    let payload = b"arbitrary bytes \x00\xff\x7f of any shape".to_vec();
    let wire = encode_frame(&payload);
    assert_eq!(wire.len(), payload.len() + 4);

    let mut codec = DistantCodec::new();
    codec.feed(&wire);
    let decoded = codec.try_read_frame().expect("complete frame");
    assert_eq!(decoded, payload);
    assert!(codec.try_read_frame().is_none());
}

#[test]
fn frame_empty_payload_round_trips() {
    let wire = encode_frame(&[]);
    assert_eq!(wire, vec![0, 0, 0, 0]);
    let mut codec = DistantCodec::new();
    codec.feed(&wire);
    assert_eq!(codec.try_read_frame().expect("frame"), Vec::<u8>::new());
}

#[test]
fn partial_frame_is_never_exposed() {
    let payload = b"0123456789".to_vec();
    let wire = encode_frame(&payload);

    let mut codec = DistantCodec::new();
    // Feed everything but the last byte: no frame may come out.
    codec.feed(&wire[..wire.len() - 1]);
    assert!(codec.try_read_frame().is_none());

    // The final byte completes the frame.
    codec.feed(&wire[wire.len() - 1..]);
    assert_eq!(codec.try_read_frame().expect("frame"), payload);
}

#[test]
fn two_frames_in_one_chunk_come_out_in_order() {
    let mut wire = encode_frame(b"first");
    wire.extend_from_slice(&encode_frame(b"second"));

    let mut codec = DistantCodec::new();
    codec.feed(&wire);
    assert_eq!(codec.try_read_frame().expect("frame"), b"first".to_vec());
    assert_eq!(codec.try_read_frame().expect("frame"), b"second".to_vec());
    assert!(codec.try_read_frame().is_none());
}

#[test]
fn codec_write_buffer_accumulates_and_drains() {
    let mut codec = DistantCodec::new();
    codec.queue_frame(b"abc");
    codec.queue_frame(b"d");
    assert_eq!(codec.pending_output_len(), 3 + 4 + 1 + 4);
    let out = codec.take_output();
    let mut expected = encode_frame(b"abc");
    expected.extend_from_slice(&encode_frame(b"d"));
    assert_eq!(out, expected);
    assert_eq!(codec.pending_output_len(), 0);
}

#[test]
fn sealed_transport_round_trips() {
    let mut sender = Transport::new(test_key());
    let mut receiver = Transport::new(test_key());

    let wire = sender.send(b"hello over the wire").expect("seal");
    assert_eq!(wire.len(), 4 + b"hello over the wire".len() + SEAL_OVERHEAD);

    receiver.feed(&wire);
    let got = receiver.try_receive().expect("no decrypt failure").expect("a full frame");
    assert_eq!(got, b"hello over the wire".to_vec());
}

#[test]
fn sealed_transport_rejects_empty_payload() {
    let mut sender = Transport::new(test_key());
    assert_eq!(sender.send(b"").unwrap_err(), TransportError::EncryptError);
}

#[test]
fn tampered_frame_fails_to_open_but_transport_stays_usable() {
    let mut sender = Transport::new(test_key());
    let mut receiver = Transport::new(test_key());

    let wire = sender.send(b"authentic message").expect("seal");

    // Flip one bit in each region of the sealed payload: the nonce, the
    // ciphertext, and the tag.  Every such frame must fail to open.
    for &pos in &[4usize, 4 + 10, wire.len() - 1, wire.len() - 20] {
        let mut tampered = wire.clone();
        tampered[pos] ^= 0x01;
        receiver.feed(&tampered);
        assert!(receiver.try_receive().is_err(), "bit flip at {pos} must fail");

        // The failure is fatal to the frame only: the next, untampered
        // frame still opens.
        receiver.feed(&wire);
        let got = receiver.try_receive().expect("usable").expect("frame");
        assert_eq!(got, b"authentic message".to_vec());
    }
}

#[test]
fn wrong_key_fails_to_open() {
    let mut sender = Transport::new(test_key());
    let mut receiver = Transport::new(vec![9u8; KEY_LEN]);

    let wire = sender.send(b"secret").expect("seal");
    receiver.feed(&wire);
    assert!(receiver.try_receive().is_err());
}

#[test]
fn sealing_twice_gives_distinct_wire_bytes() {
    // The nonce is fresh per frame, so equal plaintexts never repeat on
    // the wire.
    let mut sender = Transport::new(test_key());
    let w1 = sender.send(b"same plaintext").expect("seal");
    let w2 = sender.send(b"same plaintext").expect("seal");
    assert_ne!(w1, w2);
}

#[test]
fn split_halves_share_the_key() {
    let mut t = Transport::new(test_key());
    t.feed(b"");
    let (mut read_half, mut write_half) = t.split();

    let wire = write_half.send(b"through the halves").expect("seal");
    read_half.feed(&wire);
    let got = read_half.try_receive().expect("open").expect("frame");
    assert_eq!(got, b"through the halves".to_vec());
}

#[test]
fn incomplete_wire_bytes_return_none_until_complete() {
    let mut sender = Transport::new(test_key());
    let mut receiver = Transport::new(test_key());

    let wire = sender.send(b"chunked").expect("seal");
    let (a, b) = wire.split_at(wire.len() / 2);

    receiver.feed(a);
    assert!(receiver.try_receive().expect("no failure yet").is_none());
    receiver.feed(b);
    let got = receiver.try_receive().expect("open").expect("frame");
    assert_eq!(got, b"chunked".to_vec());
}
