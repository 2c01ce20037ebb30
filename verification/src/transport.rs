//! The encrypted transport: every outbound payload is sealed with a
//! per-connection symmetric key before framing, and every inbound frame is
//! opened before delivery.  Sealing and opening are done by `orion`'s
//! XChaCha20Poly1305 AEAD; the ciphertext carries its own nonce and tag.
//!
//! The transport computes bytes only: the caller moves the resulting wire
//! bytes to and from the socket.

use vstd::prelude::*;

use crate::frame::{frame_of, parse_frame, DistantCodec};

verus! {

/// What `orion::aead::open` returns for a given key and ciphertext: the
/// recovered plaintext, or nothing when authentication fails.  Decryption is
/// a pure function of the key and ciphertext bytes.
pub uninterp spec fn open_of(key: Seq<u8>, ct: Seq<u8>) -> Option<Seq<u8>>;

/// The byte length of an AEAD key.
pub const KEY_LEN: usize = 32;

/// The bytes the seal adds around a plaintext: a 24-byte nonce in front and
/// a 16-byte authentication tag behind.
pub const SEAL_OVERHEAD: usize = 40;

/// The error from `orion` when sealing or opening fails.
#[verifier::external_type_specification]
#[verifier::external_body]
pub struct ExUnknownCryptoError(orion::errors::UnknownCryptoError);

/// Relies on `orion::aead::seal` (with `SecretKey::from_slice` converting the
/// key bytes): for a 32-byte key and a non-empty plaintext it returns a
/// ciphertext that `orion::aead::open` with the same key decrypts back to
/// exactly the plaintext, 40 bytes longer than the plaintext (24-byte nonce
/// plus 16-byte tag).  The nonce is drawn fresh inside the call, which
/// aborts only if the system's randomness source fails.
#[verifier::external_body]
fn aead_seal(key: &[u8], data: &[u8]) -> (r: Result<Vec<u8>, orion::errors::UnknownCryptoError>)
    requires
        key@.len() == KEY_LEN,
        1 <= data@.len() <= u32::MAX,
    ensures
        r is Ok,
        r matches Ok(ct) ==> {
            &&& open_of(key@, ct@) == Some(data@)
            &&& ct@.len() == data@.len() + SEAL_OVERHEAD
        },
{
    let secret_key = orion::aead::SecretKey::from_slice(key)?;
    orion::aead::seal(&secret_key, data)
}

/// Relies on `orion::aead::open` (with `SecretKey::from_slice` converting the
/// key bytes): decryption is a pure function of the key and ciphertext
/// bytes, succeeding exactly when authentication succeeds.
#[verifier::external_body]
fn aead_open(key: &[u8], ct: &[u8]) -> (r: Result<Vec<u8>, orion::errors::UnknownCryptoError>)
    requires
        key@.len() == KEY_LEN,
        ct@.len() <= u32::MAX as int + SEAL_OVERHEAD,
    ensures
        r matches Ok(data) ==> open_of(key@, ct@) == Some(data@),
        r is Err ==> open_of(key@, ct@) is None,
{
    let secret_key = orion::aead::SecretKey::from_slice(key)?;
    orion::aead::open(&secret_key, ct)
}

/// An error of the transport layer.
#[derive(Copy, Clone, Debug, PartialEq, Eq, Structural)]
pub enum TransportError {
    /// The payload cannot be sealed (empty, or too large to frame).
    EncryptError,
    /// An inbound frame failed authentication and was dropped.
    DecryptError,
}

/// Whether a sealed wire unit is well-formed for `key`: a single frame whose
/// payload is a ciphertext that opens to `plain` under `key`.
pub open spec fn seals_to(key: Seq<u8>, wire: Seq<u8>, plain: Seq<u8>) -> bool {
    exists|ct: Seq<u8>|
        {
            &&& ct.len() <= u32::MAX
            &&& wire == frame_of(ct)
            &&& open_of(key, ct) == Some(plain)
        }
}

/// A transport of data across the network: a frame codec plus the
/// per-connection key that seals every payload.
pub struct Transport {
    key: Vec<u8>,
    codec: DistantCodec,
}

/// The write half of a split transport.
pub struct TransportWriteHalf {
    key: Vec<u8>,
    codec: DistantCodec,
}

/// The read half of a split transport.
pub struct TransportReadHalf {
    key: Vec<u8>,
    codec: DistantCodec,
}

impl Transport {
    /// The connection key in use.
    pub closed spec fn key_spec(&self) -> Seq<u8> {
        self.key@
    }

    /// The inbound bytes buffered and not yet consumed.
    pub closed spec fn inbound(&self) -> Seq<u8> {
        self.codec.inbound()
    }

    /// A transport is well-formed when its key has the AEAD key length.
    pub closed spec fn wf(&self) -> bool {
        self.key@.len() == KEY_LEN
    }

    /// Wraps a connection key in a transport layer.
    pub fn new(key: Vec<u8>) -> (t: Self)
        requires
            key@.len() == KEY_LEN,
        ensures
            t.wf(),
            t.key_spec() == key@,
            t.inbound() == Seq::<u8>::empty(),
    {
        Self { key, codec: DistantCodec::new() }
    }

    /// Seals some data for the wire, returning the framed ciphertext the
    /// caller writes to the socket.
    pub fn send(&mut self, data: &[u8]) -> (r: Result<Vec<u8>, TransportError>)
        requires
            old(self).wf(),
        ensures
            *final(self) == *old(self),
            1 <= data@.len() <= u32::MAX - SEAL_OVERHEAD ==> r is Ok,
            r matches Ok(wire) ==> seals_to(old(self).key_spec(), wire@, data@),
    {
        if data.len() == 0 || data.len() > (u32::MAX as usize) - SEAL_OVERHEAD {
            return Err(TransportError::EncryptError);
        }
        let ct = match aead_seal(self.key.as_slice(), data) {
            Ok(ct) => ct,
            Err(_) => {
                return Err(TransportError::EncryptError);
            }
        };
        let wire = crate::frame::encode_frame(ct.as_slice());
        Ok(wire)
    }

    /// Accepts bytes read from the wire into the inbound buffer.
    pub fn feed(&mut self, data: &[u8])
        requires
            old(self).wf(),
        ensures
            final(self).wf(),
            final(self).key_spec() == old(self).key_spec(),
            final(self).inbound() == old(self).inbound() + data@,
    {
        self.codec.feed(data);
    }

    /// Tries to take one sealed frame out of the inbound buffer and open it.
    ///
    /// Returns `Ok(Some(plaintext))` when a complete, authentic frame was
    /// buffered; `Ok(None)` when no complete frame is buffered yet (the
    /// buffer is kept); and `Err` when the buffered frame fails
    /// authentication.  An authentication failure is fatal to that frame
    /// only: the frame is consumed and the transport stays usable.
    pub fn try_receive(&mut self) -> (r: Result<Option<Vec<u8>>, TransportError>)
        requires
            old(self).wf(),
        ensures
            final(self).wf(),
            final(self).key_spec() == old(self).key_spec(),
            match parse_frame(old(self).inbound()) {
                Some((ct, consumed)) => {
                    &&& final(self).inbound() == old(self).inbound().subrange(
                        consumed,
                        old(self).inbound().len() as int,
                    )
                    &&& match open_of(old(self).key_spec(), ct) {
                        Some(plain) => r matches Ok(p) && p matches Some(v) && v@ == plain,
                        None => r is Err,
                    }
                },
                None => r matches Ok(p) && p is None && final(self).inbound() == old(
                    self,
                ).inbound(),
            },
    {
        let ct = match self.codec.try_read_frame() {
            Some(ct) => ct,
            None => {
                return Ok(None);
            }
        };
        proof {
            // A frame payload never exceeds the length a 4-byte header can
            // describe.
            assert(parse_frame(old(self).inbound()) is Some);
        }
        match aead_open(self.key.as_slice(), ct.as_slice()) {
            Ok(plain) => Ok(Some(plain)),
            Err(_) => Err(TransportError::DecryptError),
        }
    }

    /// Splits the transport into read and write halves sharing the key; the
    /// read half keeps the inbound buffer.
    pub fn split(self) -> (halves: (TransportReadHalf, TransportWriteHalf))
        requires
            self.wf(),
        ensures
            halves.0.wf(),
            halves.1.wf(),
            halves.0.key_spec() == self.key_spec(),
            halves.1.key_spec() == self.key_spec(),
            halves.0.inbound() == self.inbound(),
    {
        let read_half = TransportReadHalf { key: self.key.clone(), codec: self.codec };
        let write_half = TransportWriteHalf { key: self.key, codec: DistantCodec::new() };
        (read_half, write_half)
    }
}

impl TransportWriteHalf {
    /// The connection key in use.
    pub closed spec fn key_spec(&self) -> Seq<u8> {
        self.key@
    }

    /// A write half is well-formed when its key has the AEAD key length.
    pub closed spec fn wf(&self) -> bool {
        self.key@.len() == KEY_LEN
    }

    /// Creates a write half directly from a connection key.
    pub fn new(key: Vec<u8>) -> (t: Self)
        requires
            key@.len() == KEY_LEN,
        ensures
            t.wf(),
            t.key_spec() == key@,
    {
        Self { key, codec: DistantCodec::new() }
    }

    /// Seals some data for the wire, as `Transport::send` does.
    pub fn send(&mut self, data: &[u8]) -> (r: Result<Vec<u8>, TransportError>)
        requires
            old(self).wf(),
        ensures
            *final(self) == *old(self),
            1 <= data@.len() <= u32::MAX - SEAL_OVERHEAD ==> r is Ok,
            r matches Ok(wire) ==> seals_to(old(self).key_spec(), wire@, data@),
    {
        if data.len() == 0 || data.len() > (u32::MAX as usize) - SEAL_OVERHEAD {
            return Err(TransportError::EncryptError);
        }
        let ct = match aead_seal(self.key.as_slice(), data) {
            Ok(ct) => ct,
            Err(_) => {
                return Err(TransportError::EncryptError);
            }
        };
        let wire = crate::frame::encode_frame(ct.as_slice());
        Ok(wire)
    }
}

impl TransportReadHalf {
    /// The connection key in use.
    pub closed spec fn key_spec(&self) -> Seq<u8> {
        self.key@
    }

    /// The inbound bytes buffered and not yet consumed.
    pub closed spec fn inbound(&self) -> Seq<u8> {
        self.codec.inbound()
    }

    /// A read half is well-formed when its key has the AEAD key length.
    pub closed spec fn wf(&self) -> bool {
        self.key@.len() == KEY_LEN
    }

    /// Creates a read half directly from a connection key.
    pub fn new(key: Vec<u8>) -> (t: Self)
        requires
            key@.len() == KEY_LEN,
        ensures
            t.wf(),
            t.key_spec() == key@,
            t.inbound() == Seq::<u8>::empty(),
    {
        Self { key, codec: DistantCodec::new() }
    }

    /// Accepts bytes read from the wire into the inbound buffer.
    pub fn feed(&mut self, data: &[u8])
        requires
            old(self).wf(),
        ensures
            final(self).wf(),
            final(self).key_spec() == old(self).key_spec(),
            final(self).inbound() == old(self).inbound() + data@,
    {
        self.codec.feed(data);
    }

    /// Tries to take one sealed frame out of the inbound buffer and open it,
    /// as `Transport::try_receive` does.
    pub fn try_receive(&mut self) -> (r: Result<Option<Vec<u8>>, TransportError>)
        requires
            old(self).wf(),
        ensures
            final(self).wf(),
            final(self).key_spec() == old(self).key_spec(),
            match parse_frame(old(self).inbound()) {
                Some((ct, consumed)) => {
                    &&& final(self).inbound() == old(self).inbound().subrange(
                        consumed,
                        old(self).inbound().len() as int,
                    )
                    &&& match open_of(old(self).key_spec(), ct) {
                        Some(plain) => r matches Ok(p) && p matches Some(v) && v@ == plain,
                        None => r is Err,
                    }
                },
                None => r matches Ok(p) && p is None && final(self).inbound() == old(
                    self,
                ).inbound(),
            },
    {
        let ct = match self.codec.try_read_frame() {
            Some(ct) => ct,
            None => {
                return Ok(None);
            }
        };
        proof {
            // A frame payload never exceeds the length a 4-byte header can
            // describe.
            assert(parse_frame(old(self).inbound()) is Some);
        }
        match aead_open(self.key.as_slice(), ct.as_slice()) {
            Ok(plain) => Ok(Some(plain)),
            Err(_) => Err(TransportError::DecryptError),
        }
    }
}

/// Sealing then receiving round-trips: whatever `send` produced for `data`,
/// feeding those wire bytes to a receiver holding the same key yields `data`
/// back.  Stated over the wire relation the two contracts share.
pub proof fn lemma_seal_round_trip(key: Seq<u8>, wire: Seq<u8>, data: Seq<u8>)
    requires
        seals_to(key, wire, data),
    ensures
        parse_frame(wire) matches Some(parsed) && open_of(key, parsed.0) == Some(data),
{
    let ct = choose|ct: Seq<u8>|
        ct.len() <= u32::MAX && wire == frame_of(ct) && open_of(key, ct) == Some(data);
    crate::frame::lemma_frame_round_trip(ct);
}

} // verus!
