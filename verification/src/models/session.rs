//! The Oblivion full-duplex session: handshake, framed encrypted traffic,
//! and the monotonic closed flag.
//!
//! A session is born NEW, becomes OPEN once a handshake derives the
//! session key, and is CLOSED by `close` or by receiving a terminal
//! message. Sends and receives fail on a session that is not open. The
//! socket itself lives outside: the handshake and traffic methods take
//! and return the exact bytes that cross the wire.
use crate::exceptions::Exception;
use crate::models::client::Response;
use crate::models::packet::{oed_decode, oed_decode_spec, oed_encode, DecodeOutcome, OKE};
use crate::models::render::{spec_response_bytes, BaseResponse};
use crate::utils::encryptor::MAX_OED_LEN;
use crate::utils::generator::generate_key_pair;
use crate::utils::parser::{
    be32_bytes, length, parse_header, OblivionRequest, MAX_FRAME_LEN,
};
use vstd::prelude::*;

verus! {

/// One peer's session state.
pub struct Session {
    header: Vec<u8>,
    private_key: Option<ring::agreement::EphemeralPrivateKey>,
    public_key: Vec<u8>,
    oke: Option<OKE>,
    aes_key: [u8; 16],
    key_ready: bool,
    request: Option<OblivionRequest>,
    closed: bool,
    derivation_secret: Ghost<Seq<u8>>,
    derivation_salt: Ghost<Seq<u8>>,
}

impl Session {
    /// The plaintext header line this session opened with.
    pub closed spec fn spec_header(&self) -> Seq<u8> {
        self.header@
    }

    /// This peer's own ephemeral public key bytes.
    pub closed spec fn spec_public_key(&self) -> Seq<u8> {
        self.public_key@
    }

    /// Whether the ephemeral private key is still held.
    pub closed spec fn has_private_key(&self) -> bool {
        self.private_key is Some
    }

    /// Whether a key-exchange packet is pending between the two handshake
    /// halves.
    pub closed spec fn has_pending_oke(&self) -> bool {
        self.oke is Some
    }

    /// Whether the handshake has derived the session key.
    pub closed spec fn spec_key_ready(&self) -> bool {
        self.key_ready
    }

    /// The 16-byte session key; meaningful once `spec_key_ready()`.
    pub closed spec fn spec_aes_key(&self) -> Seq<u8> {
        self.aes_key@
    }

    /// The parsed request, once the responder handshake has read one.
    pub closed spec fn spec_request(&self) -> Option<OblivionRequest> {
        self.request
    }

    /// The monotonic closed flag.
    pub closed spec fn spec_closed(&self) -> bool {
        self.closed
    }

    /// The shared secret this session's key was derived from, as a ghost
    /// value; meaningful once `spec_key_ready()`.
    pub closed spec fn spec_derivation_secret(&self) -> Seq<u8> {
        self.derivation_secret@
    }

    /// The salt this session's key was derived with, as a ghost value;
    /// meaningful once `spec_key_ready()`.
    pub closed spec fn spec_derivation_salt(&self) -> Seq<u8> {
        self.derivation_salt@
    }

    /// The salt of the pending key-exchange packet, between the two
    /// responder handshake halves.
    pub closed spec fn spec_pending_salt(&self) -> Seq<u8> {
        match self.oke {
            Some(o) => o.spec_salt(),
            None => Seq::empty(),
        }
    }

    /// An open session's key is exactly HKDF-SHA-256 of its agreement's
    /// shared secret and its salt.
    pub open spec fn key_derivation_ok(&self) -> bool {
        self.spec_key_ready() ==> self.spec_aes_key() == crate::utils::generator::hkdf16(
            self.spec_derivation_secret(),
            self.spec_derivation_salt(),
        )
    }

    /// A freshly made session: open key material, nothing derived, not
    /// closed.
    pub open spec fn fresh(&self) -> bool {
        &&& self.spec_public_key().len() == 32
        &&& self.has_private_key()
        &&& !self.has_pending_oke()
        &&& !self.spec_key_ready()
        &&& self.spec_request() is None
        &&& !self.spec_closed()
    }

    /// A new session with an empty header and a fresh ephemeral key pair.
    pub fn new() -> (r: Result<Session, Exception>)
        ensures
            r matches Ok(s) ==> s.fresh() && s.spec_header().len() == 0,
    {
        let (private_key, public_key) = match generate_key_pair() {
            Ok(p) => p,
            Err(e) => {
                return Err(e);
            },
        };
        Ok(Session {
            header: Vec::new(),
            private_key: Some(private_key),
            public_key,
            oke: None,
            aes_key: [0u8; 16],
            key_ready: false,
            request: None,
            closed: false,
            derivation_secret: Ghost(Seq::empty()),
            derivation_salt: Ghost(Seq::empty()),
        })
    }

    /// A new session that will open with the given header line.
    pub fn new_with_header(header: Vec<u8>) -> (r: Result<Session, Exception>)
        ensures
            r matches Ok(s) ==> s.fresh() && s.spec_header() == header@,
    {
        let mut s = match Session::new() {
            Ok(s) => s,
            Err(e) => {
                return Err(e);
            },
        };
        s.header = header;
        Ok(s)
    }

    /// The initiator's first bytes: the length-prefixed header line.
    pub fn first_hand_request(&self) -> (r: Result<Vec<u8>, Exception>)
        ensures
            r is Ok <==> self.spec_header().len() <= MAX_FRAME_LEN,
            r matches Ok(v) ==> v@ == be32_bytes(self.spec_header().len() as u32)
                + self.spec_header(),
            r matches Err(e) ==> e matches Exception::DataTooLarge { .. },
    {
        let prefix = match length(self.header.as_slice()) {
            Ok(a) => a,
            Err(e) => {
                return Err(e);
            },
        };
        let mut v: Vec<u8> = Vec::new();
        v.extend_from_slice(prefix.as_slice());
        v.extend_from_slice(self.header.as_slice());
        proof {
            assert(v@ =~= be32_bytes(self.spec_header().len() as u32) + self.spec_header());
        }
        Ok(v)
    }

    /// The initiator's second step: take the responder's public key and
    /// salt, derive the session key, and return the framed own public key
    /// to send back.
    pub fn first_hand_finish(&mut self, server_public_key: Vec<u8>, salt: Vec<u8>) -> (r: Result<
        Vec<u8>,
        Exception,
    >)
        ensures
            final(self).spec_header() == old(self).spec_header(),
            final(self).spec_closed() == old(self).spec_closed(),
            final(self).spec_request() == old(self).spec_request(),
            final(self).spec_public_key() == old(self).spec_public_key(),
            !old(self).has_private_key() ==> r is Err,
            old(self).spec_public_key().len() != 32 ==> r is Err,
            r is Ok ==> final(self).spec_key_ready() && !final(self).has_private_key(),
            r is Ok ==> final(self).key_derivation_ok() && final(self).spec_derivation_salt()
                == salt@,
            r is Err ==> final(self).spec_key_ready() == old(self).spec_key_ready(),
            r matches Ok(v) ==> v@ == be32_bytes(32) + old(self).spec_public_key(),
    {
        if self.public_key.len() != 32 {
            return Err(Exception::KeyAgreementError);
        }
        let private_key = match self.private_key.take() {
            Some(pk) => pk,
            None => {
                return Err(Exception::KeyAgreementError);
            },
        };
        let own_public = self.public_key.clone();
        let mut oke = match OKE::new(Some(private_key), own_public) {
            Ok(o) => o,
            Err(e) => {
                return Err(e);
            },
        };
        match oke.from_remote_public_key_with_salt(server_public_key, salt) {
            Ok(()) => {},
            Err(e) => {
                return Err(e);
            },
        }
        let reply = match oke.plain_data() {
            Ok(v) => v,
            Err(e) => {
                return Err(e);
            },
        };
        self.aes_key = oke.get_aes_key();
        self.derivation_secret = Ghost(oke.spec_secret());
        self.derivation_salt = Ghost(oke.spec_salt());
        self.key_ready = true;
        Ok(reply)
    }

    /// The responder's first step: parse the header line just read, attach
    /// the peer's address, and return the framed own public key and salt
    /// to send. A header outside the grammar is refused and the session is
    /// left for dropping.
    pub fn second_hand_begin(
        &mut self,
        header: Vec<u8>,
        peer_addr: Vec<u8>,
        peer_port: u16,
    ) -> (r: Result<Vec<u8>, Exception>)
        ensures
            parse_header(header@) is None ==> (r matches Err(e) && e matches
                Exception::InvalidHeader),
            r matches Err(e) ==> (e matches Exception::InvalidHeader ==> parse_header(header@)
                is None),
            final(self).spec_closed() == old(self).spec_closed(),
            final(self).spec_key_ready() == old(self).spec_key_ready(),
            r is Ok ==> {
                &&& parse_header(header@) is Some
                &&& (final(self).spec_request() matches Some(q) && parse_header(header@)
                    == Some(q.as_spec_header()) && q.spec_remote_addr() == peer_addr@
                    && q.spec_remote_port() == peer_port)
                &&& final(self).spec_header() == header@
                &&& final(self).has_pending_oke()
                &&& (r matches Ok(v) && v@.len() == 4 + 32 + 4 + 16 && v@.take(36)
                    == be32_bytes(32) + old(self).spec_public_key() && v@.skip(40)
                    == final(self).spec_pending_salt())
            },
    {
        let mut request = match OblivionRequest::new(header.as_slice()) {
            Ok(q) => q,
            Err(e) => {
                return Err(e);
            },
        };
        request.set_remote_peer(peer_addr, peer_port);
        if self.public_key.len() != 32 {
            return Err(Exception::KeyAgreementError);
        }
        let private_key = match self.private_key.take() {
            Some(pk) => pk,
            None => {
                return Err(Exception::KeyAgreementError);
            },
        };
        let own_public = self.public_key.clone();
        let oke = match OKE::new(Some(private_key), own_public) {
            Ok(o) => o,
            Err(e) => {
                return Err(e);
            },
        };
        let mut out = match oke.plain_data() {
            Ok(v) => v,
            Err(e) => {
                return Err(e);
            },
        };
        let mut salt_part = match oke.plain_salt() {
            Ok(v) => v,
            Err(e) => {
                return Err(e);
            },
        };
        let ghost out_head = out@;
        out.append(&mut salt_part);
        proof {
            assert(out@.take(36) =~= out_head);
            assert(out@.skip(40) =~= oke.spec_salt());
        }
        self.request = Some(request);
        self.header = header;
        self.oke = Some(oke);
        Ok(out)
    }

    /// The responder's second step: take the initiator's public key and
    /// derive the session key.
    pub fn second_hand_finish(&mut self, client_public_key: Vec<u8>) -> (r: Result<(), Exception>)
        ensures
            final(self).spec_header() == old(self).spec_header(),
            final(self).spec_closed() == old(self).spec_closed(),
            final(self).spec_request() == old(self).spec_request(),
            !old(self).has_pending_oke() ==> r is Err,
            r is Ok ==> final(self).spec_key_ready(),
            r is Ok ==> final(self).key_derivation_ok() && final(self).spec_derivation_salt()
                == old(self).spec_pending_salt(),
            r is Err ==> final(self).spec_key_ready() == old(self).spec_key_ready(),
    {
        let mut oke = match self.oke.take() {
            Some(o) => o,
            None => {
                return Err(Exception::KeyAgreementError);
            },
        };
        if !oke.has_private() {
            return Err(Exception::KeyAgreementError);
        }
        if oke.key_already_derived() {
            return Err(Exception::KeyAgreementError);
        }
        match oke.from_remote_public_key(client_public_key) {
            Ok(()) => {},
            Err(e) => {
                return Err(e);
            },
        }
        self.aes_key = oke.get_aes_key();
        self.derivation_secret = Ghost(oke.spec_secret());
        self.derivation_salt = Ghost(oke.spec_salt());
        self.key_ready = true;
        Ok(())
    }

    /// The wire bytes of one outgoing message: a status code, then the
    /// sealed payload. Decoding the datagram under the session key gives
    /// back exactly `data`. Fails with connection-closed on a session that
    /// is closed or was never opened.
    fn send_with_flag(&self, flag: u32, data: Vec<u8>) -> (r: Result<Vec<u8>, Exception>)
        ensures
            self.spec_closed() ==> (r matches Err(e) && e matches Exception::ConnectionClosed),
            !self.spec_closed() && !self.spec_key_ready() ==> (r matches Err(e) && e matches
                Exception::ConnectionClosed),
            !self.spec_closed() && self.spec_key_ready() && data@.len() > MAX_OED_LEN ==> (r
                matches Err(e) && e matches Exception::DataTooLarge { .. }),
            r matches Err(e) ==> {
                &&& (e matches Exception::ConnectionClosed ==> self.spec_closed()
                    || !self.spec_key_ready())
                &&& (e matches Exception::DataTooLarge { .. } ==> !self.spec_closed()
                    && self.spec_key_ready() && data@.len() > MAX_OED_LEN)
                &&& (e matches Exception::ConnectionClosed || e matches
                    Exception::DataTooLarge { .. } || e matches Exception::EncryptError)
            },
            r matches Ok(w) ==> {
                &&& !self.spec_closed()
                &&& self.spec_key_ready()
                &&& w@.len() >= 4
                &&& w@.take(4) == be32_bytes(flag)
                &&& oed_decode_spec(w@.skip(4), self.spec_aes_key()) == DecodeOutcome::Plain(
                    data@,
                )
            },
    {
        if self.closed {
            return Err(Exception::ConnectionClosed);
        }
        if !self.key_ready {
            return Err(Exception::ConnectionClosed);
        }
        let oed = match oed_encode(data, &self.aes_key) {
            Ok(w) => w,
            Err(e) => {
                return Err(e);
            },
        };
        let mut w = crate::utils::parser::u32_to_be_vec(flag);
        let ghost head = w@;
        let mut tail = oed;
        let ghost tail_view = tail@;
        w.append(&mut tail);
        proof {
            assert(w@.take(4) =~= head);
            assert(w@.skip(4) =~= tail_view);
        }
        Ok(w)
    }

    /// One normal message: status code zero, then the sealed payload.
    pub fn send(&self, data: Vec<u8>) -> (r: Result<Vec<u8>, Exception>)
        ensures
            self.spec_closed() ==> (r matches Err(e) && e matches Exception::ConnectionClosed),
            !self.spec_closed() && !self.spec_key_ready() ==> (r matches Err(e) && e matches
                Exception::ConnectionClosed),
            !self.spec_closed() && self.spec_key_ready() && data@.len() > MAX_OED_LEN ==> (r
                matches Err(e) && e matches Exception::DataTooLarge { .. }),
            r matches Err(e) ==> {
                &&& (e matches Exception::ConnectionClosed ==> self.spec_closed()
                    || !self.spec_key_ready())
                &&& (e matches Exception::DataTooLarge { .. } ==> !self.spec_closed()
                    && self.spec_key_ready() && data@.len() > MAX_OED_LEN)
                &&& (e matches Exception::ConnectionClosed || e matches
                    Exception::DataTooLarge { .. } || e matches Exception::EncryptError)
            },
            r matches Ok(w) ==> {
                &&& !self.spec_closed()
                &&& self.spec_key_ready()
                &&& w@.len() >= 4
                &&& w@.take(4) == be32_bytes(0)
                &&& oed_decode_spec(w@.skip(4), self.spec_aes_key()) == DecodeOutcome::Plain(
                    data@,
                )
            },
    {
        self.send_with_flag(0, data)
    }

    /// The terminal message a responder sends before closing: status code
    /// one, then the sealed payload.
    pub fn send_terminal(&self, data: Vec<u8>) -> (r: Result<Vec<u8>, Exception>)
        ensures
            self.spec_closed() ==> (r matches Err(e) && e matches Exception::ConnectionClosed),
            !self.spec_closed() && !self.spec_key_ready() ==> (r matches Err(e) && e matches
                Exception::ConnectionClosed),
            r matches Err(e) ==> {
                &&& (e matches Exception::ConnectionClosed ==> self.spec_closed()
                    || !self.spec_key_ready())
                &&& (e matches Exception::DataTooLarge { .. } ==> !self.spec_closed()
                    && self.spec_key_ready() && data@.len() > MAX_OED_LEN)
                &&& (e matches Exception::ConnectionClosed || e matches
                    Exception::DataTooLarge { .. } || e matches Exception::EncryptError)
            },
            r matches Ok(w) ==> {
                &&& !self.spec_closed()
                &&& self.spec_key_ready()
                &&& w@.len() >= 4
                &&& w@.take(4) == be32_bytes(1)
                &&& oed_decode_spec(w@.skip(4), self.spec_aes_key()) == DecodeOutcome::Plain(
                    data@,
                )
            },
    {
        self.send_with_flag(1, data)
    }

    /// Render a handler's reply and send it as one normal message.
    pub fn response(&self, response: BaseResponse) -> (r: Result<Vec<u8>, Exception>)
        ensures
            self.spec_closed() ==> (r matches Err(e) && e matches Exception::ConnectionClosed),
            spec_response_bytes(&response) is None && !self.spec_closed() ==> (r matches Err(e)
                && e matches Exception::UnsupportedMethod),
            r matches Err(e) ==> {
                &&& (e matches Exception::ConnectionClosed ==> self.spec_closed()
                    || !self.spec_key_ready())
                &&& (e matches Exception::UnsupportedMethod ==> spec_response_bytes(&response)
                    is None)
            },
            r matches Ok(w) ==> {
                &&& !self.spec_closed()
                &&& self.spec_key_ready()
                &&& spec_response_bytes(&response) is Some
                &&& w@.len() >= 4
                &&& w@.take(4) == be32_bytes(0)
                &&& oed_decode_spec(w@.skip(4), self.spec_aes_key()) == DecodeOutcome::Plain(
                    spec_response_bytes(&response)->Some_0,
                )
            },
    {
        if self.closed {
            return Err(Exception::ConnectionClosed);
        }
        let data = match response.as_bytes() {
            Ok(v) => v,
            Err(e) => {
                return Err(e);
            },
        };
        self.send(data)
    }

    /// Accept one incoming message: the status flag already read, and the
    /// datagram's wire bytes. Decodes and opens the payload; a terminal
    /// flag closes the session after the payload is returned. Fails with
    /// connection-closed on a session that is closed or was never opened,
    /// and leaves the state unchanged on every failure.
    pub fn recv(&mut self, flag: u32, oed_wire: &[u8]) -> (r: Result<Response, Exception>)
        ensures
            final(self).spec_closed() == (old(self).spec_closed() || (r is Ok && flag == 1)),
            final(self).spec_header() == old(self).spec_header(),
            final(self).spec_key_ready() == old(self).spec_key_ready(),
            final(self).spec_aes_key() == old(self).spec_aes_key(),
            final(self).spec_request() == old(self).spec_request(),
            final(self).spec_derivation_secret() == old(self).spec_derivation_secret(),
            final(self).spec_derivation_salt() == old(self).spec_derivation_salt(),
            final(self).has_private_key() == old(self).has_private_key(),
            final(self).has_pending_oke() == old(self).has_pending_oke(),
            final(self).spec_public_key() == old(self).spec_public_key(),
            old(self).spec_closed() ==> (r matches Err(e) && e matches Exception::ConnectionClosed),
            !old(self).spec_closed() && !old(self).spec_key_ready() ==> (r matches Err(e)
                && e matches Exception::ConnectionClosed),
            r matches Ok(resp) ==> {
                &&& !old(self).spec_closed()
                &&& old(self).spec_key_ready()
                &&& oed_decode_spec(oed_wire@, old(self).spec_aes_key()) == DecodeOutcome::Plain(
                    resp.content@,
                )
                &&& resp.flag == flag
                &&& resp.header is None
                &&& resp.entrance is None
            },
            !old(self).spec_closed() && old(self).spec_key_ready() ==> (r matches Err(e) ==> {
                &&& !(oed_decode_spec(oed_wire@, old(self).spec_aes_key()) is Plain)
                &&& (oed_decode_spec(oed_wire@, old(self).spec_aes_key()) is NeedMore ==> e
                    matches Exception::ConnectionClosed)
                &&& (oed_decode_spec(oed_wire@, old(self).spec_aes_key()) is TooLarge ==> e
                    matches Exception::DataTooLarge { .. })
                &&& (oed_decode_spec(oed_wire@, old(self).spec_aes_key()) is Failed ==> e matches
                    Exception::DecryptError)
            }),
    {
        if self.closed {
            return Err(Exception::ConnectionClosed);
        }
        if !self.key_ready {
            return Err(Exception::ConnectionClosed);
        }
        let content = match oed_decode(oed_wire, &self.aes_key) {
            Ok(p) => p,
            Err(e) => {
                return Err(e);
            },
        };
        if flag == 1 {
            self.closed = true;
        }
        Ok(Response::new(None, content, None, flag))
    }

    /// Close the session. The first call sets the monotonic closed flag;
    /// closing a session that is already closed changes nothing at all.
    pub fn close(&mut self)
        ensures
            final(self).spec_closed(),
            final(self).spec_header() == old(self).spec_header(),
            final(self).spec_key_ready() == old(self).spec_key_ready(),
            final(self).spec_aes_key() == old(self).spec_aes_key(),
            final(self).spec_request() == old(self).spec_request(),
            final(self).spec_derivation_secret() == old(self).spec_derivation_secret(),
            final(self).spec_derivation_salt() == old(self).spec_derivation_salt(),
            final(self).has_private_key() == old(self).has_private_key(),
            final(self).has_pending_oke() == old(self).has_pending_oke(),
            final(self).spec_public_key() == old(self).spec_public_key(),
            old(self).spec_closed() ==> *final(self) == *old(self),
    {
        if !self.closed {
            self.closed = true;
        }
    }

    /// Whether the session is closed.
    pub fn closed(&self) -> (r: bool)
        ensures
            r == self.spec_closed(),
    {
        self.closed
    }

    /// The header line this session opened with.
    pub fn header(&self) -> (r: &Vec<u8>)
        ensures
            r@ == self.spec_header(),
    {
        &self.header
    }

    /// The session key, for framing done outside the session's own
    /// methods.
    pub fn aes_key(&self) -> (r: [u8; 16])
        requires
            self.spec_key_ready(),
        ensures
            r@ == self.spec_aes_key(),
    {
        self.aes_key
    }

    /// The peer address attached to the parsed request.
    pub fn get_ip(&self) -> (r: Vec<u8>)
        ensures
            self.spec_request() matches Some(q) ==> r@ == q.spec_remote_addr(),
            self.spec_request() is None ==> r@.len() == 0,
    {
        match &self.request {
            Some(q) => q.get_ip().clone(),
            None => Vec::new(),
        }
    }

    /// The parsed request, once the responder handshake has read one.
    pub fn request(&self) -> (r: &Option<OblivionRequest>)
        ensures
            *r == self.spec_request(),
    {
        &self.request
    }
}

/// For every pair of peers that ran the initiator/responder handshake
/// correctly — their X25519 agreements produced the same shared secret,
/// and the responder's salt reached the initiator unchanged — the derived
/// session keys are bitwise equal. That the two sides of the agreement
/// compute the same secret is the curve library's ground and stands here
/// as the hypothesis.
pub proof fn lemma_handshake_keys_agree(initiator: Session, responder: Session)
    requires
        initiator.spec_key_ready(),
        responder.spec_key_ready(),
        initiator.key_derivation_ok(),
        responder.key_derivation_ok(),
        initiator.spec_derivation_secret() == responder.spec_derivation_secret(),
        initiator.spec_derivation_salt() == responder.spec_derivation_salt(),
    ensures
        initiator.spec_aes_key() == responder.spec_aes_key(),
{
}

} // verus!
