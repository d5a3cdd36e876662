//! Oblivion packets: status codes (OSC), key-exchange payloads (OKE) and
//! encrypted datagrams (OED).
//!
//! An OED carries one AEAD-sealed byte string. On the wire it is
//! `len(nonce) || nonce || len(tag) || tag`, then zero or more
//! `(len > 0, chunk)` pairs of ciphertext, then a 4-byte zero stop flag;
//! every `len` is a 4-byte big-endian integer.
use crate::exceptions::Exception;
use crate::utils::decryptor::{decrypt_bytes, gcm_open, open_outcome};
use crate::utils::encryptor::{encrypt_bytes, encrypt_plaintext, MAX_OED_LEN};
use crate::utils::generator::generate_random_salt;
use crate::utils::parser::{
    be32_bytes, be32_value, lemma_be32_value_of_bytes, length, u32_from_be_at, u32_to_be_vec,
    MAX_FRAME_LEN,
};
use vstd::prelude::*;
use vstd::slice::{slice_subrange, slice_to_vec};

verus! {

/// Largest ciphertext slice a sender puts in one chunk.
pub const CHUNK_SIZE: usize = 1024;

/// What scanning the chunk stream of an OED yields.
pub enum ChunkParse {
    /// The stream ends before the stop flag.
    Incomplete,
    /// A length prefix would grow the ciphertext beyond the defensive bound.
    TooLarge,
    /// The chunks up to the stop flag, concatenated, and the bytes after it.
    Done { cipher: Seq<u8>, rest: Seq<u8> },
}

/// What scanning a whole OED yields.
pub enum OedParse {
    /// The stream ends inside the datagram.
    Incomplete,
    /// A length prefix exceeds its defensive bound.
    TooLarge,
    /// The three parts of the datagram and the bytes after its stop flag.
    Done { nonce: Seq<u8>, tag: Seq<u8>, cipher: Seq<u8>, rest: Seq<u8> },
}

/// Scan `(len > 0, chunk)` pairs until a zero length prefix, accumulating
/// the ciphertext onto `acc`.
pub open spec fn parse_chunks(s: Seq<u8>, acc: Seq<u8>) -> ChunkParse
    decreases s.len(),
{
    if s.len() < 4 {
        ChunkParse::Incomplete
    } else {
        let l = be32_value(s.take(4)) as int;
        if l == 0 {
            ChunkParse::Done { cipher: acc, rest: s.skip(4) }
        } else if acc.len() + l > MAX_OED_LEN as int {
            ChunkParse::TooLarge
        } else if s.len() < 4 + l {
            ChunkParse::Incomplete
        } else {
            parse_chunks(s.skip(4 + l), acc + s.subrange(4, 4 + l))
        }
    }
}

/// Scan one OED from the front of `s`: nonce, tag, then the chunk stream.
pub open spec fn parse_oed(s: Seq<u8>) -> OedParse {
    if s.len() < 4 {
        OedParse::Incomplete
    } else {
        let nl = be32_value(s.take(4)) as int;
        if nl > MAX_FRAME_LEN as int {
            OedParse::TooLarge
        } else if s.len() < 4 + nl {
            OedParse::Incomplete
        } else {
            let nonce = s.subrange(4, 4 + nl);
            let s1 = s.skip(4 + nl);
            if s1.len() < 4 {
                OedParse::Incomplete
            } else {
                let tl = be32_value(s1.take(4)) as int;
                if tl > MAX_FRAME_LEN as int {
                    OedParse::TooLarge
                } else if s1.len() < 4 + tl {
                    OedParse::Incomplete
                } else {
                    let tag = s1.subrange(4, 4 + tl);
                    match parse_chunks(s1.skip(4 + tl), Seq::empty()) {
                        ChunkParse::Incomplete => OedParse::Incomplete,
                        ChunkParse::TooLarge => OedParse::TooLarge,
                        ChunkParse::Done { cipher, rest } => OedParse::Done {
                            nonce,
                            tag,
                            cipher,
                            rest,
                        },
                    }
                }
            }
        }
    }
}

/// The chunk stream that a sender produces for `cipher`: slices of at most
/// `CHUNK_SIZE` bytes, each length-prefixed, then the stop flag.
pub open spec fn chunks_encoding(cipher: Seq<u8>) -> Seq<u8>
    decreases cipher.len(),
{
    if cipher.len() == 0 {
        be32_bytes(0)
    } else if cipher.len() <= CHUNK_SIZE as int {
        be32_bytes(cipher.len() as u32) + cipher + be32_bytes(0)
    } else {
        be32_bytes(CHUNK_SIZE as u32) + cipher.take(CHUNK_SIZE as int) + chunks_encoding(
            cipher.skip(CHUNK_SIZE as int),
        )
    }
}

/// The whole wire image of an OED.
pub open spec fn oed_wire(nonce: Seq<u8>, tag: Seq<u8>, cipher: Seq<u8>) -> Seq<u8> {
    be32_bytes(nonce.len() as u32) + nonce + be32_bytes(tag.len() as u32) + tag + chunks_encoding(
        cipher,
    )
}

/// A produced chunk stream scans back to the ciphertext it was made from,
/// with nothing after the stop flag.
proof fn lemma_parse_chunks_of_encoding(cipher: Seq<u8>, acc: Seq<u8>)
    requires
        acc.len() + cipher.len() <= MAX_OED_LEN as int,
    ensures
        parse_chunks(chunks_encoding(cipher), acc) == (ChunkParse::Done {
            cipher: acc + cipher,
            rest: Seq::<u8>::empty(),
        }),
    decreases cipher.len(),
{
    let s = chunks_encoding(cipher);
    if cipher.len() == 0 {
        lemma_be32_value_of_bytes(0);
        assert(s.take(4) =~= be32_bytes(0));
        assert(s.skip(4) =~= Seq::<u8>::empty());
        assert(acc + cipher =~= acc);
    } else if cipher.len() <= CHUNK_SIZE as int {
        let l = cipher.len() as u32;
        lemma_be32_value_of_bytes(l);
        assert(s.take(4) =~= be32_bytes(l));
        assert(s.len() == 4 + cipher.len() + 4);
        assert(s.subrange(4, 4 + l as int) =~= cipher);
        assert(s.skip(4 + l as int) =~= be32_bytes(0));
        lemma_be32_value_of_bytes(0);
        assert(be32_bytes(0).take(4) =~= be32_bytes(0));
        assert(be32_bytes(0).skip(4) =~= Seq::<u8>::empty());
        assert(parse_chunks(s.skip(4 + l as int), acc + cipher) == (ChunkParse::Done {
            cipher: acc + cipher,
            rest: Seq::<u8>::empty(),
        }));
    } else {
        let head = cipher.take(CHUNK_SIZE as int);
        let tail = cipher.skip(CHUNK_SIZE as int);
        let enc_tail = chunks_encoding(tail);
        lemma_be32_value_of_bytes(CHUNK_SIZE as u32);
        assert(s.take(4) =~= be32_bytes(CHUNK_SIZE as u32));
        assert(s.len() == 4 + CHUNK_SIZE + enc_tail.len());
        assert(s.subrange(4, 4 + CHUNK_SIZE as int) =~= head);
        assert(s.skip(4 + CHUNK_SIZE as int) =~= enc_tail);
        lemma_parse_chunks_of_encoding(tail, acc + head);
        assert(acc + head + tail =~= acc + cipher);
    }
}

/// A produced OED wire image scans back to the parts it was made from.
pub proof fn lemma_parse_oed_of_wire(nonce: Seq<u8>, tag: Seq<u8>, cipher: Seq<u8>)
    requires
        nonce.len() <= MAX_FRAME_LEN as int,
        tag.len() <= MAX_FRAME_LEN as int,
        cipher.len() <= MAX_OED_LEN as int,
    ensures
        parse_oed(oed_wire(nonce, tag, cipher)) == (OedParse::Done {
            nonce,
            tag,
            cipher,
            rest: Seq::<u8>::empty(),
        }),
{
    let s = oed_wire(nonce, tag, cipher);
    let nl = nonce.len() as u32;
    let tl = tag.len() as u32;
    let enc = chunks_encoding(cipher);
    lemma_be32_value_of_bytes(nl);
    lemma_be32_value_of_bytes(tl);
    assert(s.take(4) =~= be32_bytes(nl));
    assert(s.len() == 4 + nonce.len() + 4 + tag.len() + enc.len());
    assert(s.subrange(4, 4 + nl as int) =~= nonce);
    let s1 = s.skip(4 + nl as int);
    assert(s1 =~= be32_bytes(tl) + tag + enc);
    assert(s1.take(4) =~= be32_bytes(tl));
    assert(s1.subrange(4, 4 + tl as int) =~= tag);
    assert(s1.skip(4 + tl as int) =~= enc);
    lemma_parse_chunks_of_encoding(cipher, Seq::empty());
    assert(Seq::<u8>::empty() + cipher =~= cipher);
}

/// Write the OED wire image for the given nonce, tag and ciphertext.
#[verifier::loop_isolation(false)]
pub fn oed_encode_wire(nonce: &Vec<u8>, tag: &Vec<u8>, cipher: &Vec<u8>) -> (r: Result<
    Vec<u8>,
    Exception,
>)
    ensures
        r is Ok <==> nonce@.len() <= MAX_FRAME_LEN && tag@.len() <= MAX_FRAME_LEN && cipher@.len()
            <= MAX_OED_LEN,
        r matches Ok(w) ==> w@ == oed_wire(nonce@, tag@, cipher@),
        r matches Err(e) ==> e matches Exception::DataTooLarge { .. },
{
    let ghost full = oed_wire(nonce@, tag@, cipher@);
    if cipher.len() > MAX_OED_LEN {
        return Err(Exception::DataTooLarge { size: cipher.len() });
    }
    let nonce_prefix = match length(nonce.as_slice()) {
        Ok(a) => a,
        Err(e) => {
            return Err(e);
        },
    };
    let tag_prefix = match length(tag.as_slice()) {
        Ok(a) => a,
        Err(e) => {
            return Err(e);
        },
    };
    let mut w: Vec<u8> = Vec::new();
    w.extend_from_slice(nonce_prefix.as_slice());
    w.extend_from_slice(nonce.as_slice());
    w.extend_from_slice(tag_prefix.as_slice());
    w.extend_from_slice(tag.as_slice());
    let ghost header = be32_bytes(nonce@.len() as u32) + nonce@ + be32_bytes(tag@.len() as u32)
        + tag@;
    proof {
        assert(w@ =~= header);
        assert(cipher@.skip(0) =~= cipher@);
    }
    let mut i: usize = 0;
    while cipher.len() - i > CHUNK_SIZE
        invariant
            i <= cipher@.len(),
            cipher@.len() <= MAX_OED_LEN,
            i % CHUNK_SIZE == 0,
            w@ + chunks_encoding(cipher@.skip(i as int)) == header + chunks_encoding(cipher@),
        decreases cipher@.len() - i,
    {
        let mut prefix = u32_to_be_vec(CHUNK_SIZE as u32);
        let ghost before = w@;
        let ghost remaining = cipher@.skip(i as int);
        w.append(&mut prefix);
        w.extend_from_slice(slice_subrange(cipher.as_slice(), i, i + CHUNK_SIZE));
        proof {
            assert(remaining.take(CHUNK_SIZE as int) =~= cipher@.subrange(
                i as int,
                i + CHUNK_SIZE,
            ));
            assert(remaining.skip(CHUNK_SIZE as int) =~= cipher@.skip(i + CHUNK_SIZE));
            assert(chunks_encoding(remaining) == be32_bytes(CHUNK_SIZE as u32) + remaining.take(
                CHUNK_SIZE as int,
            ) + chunks_encoding(remaining.skip(CHUNK_SIZE as int)));
            assert(w@ =~= before + be32_bytes(CHUNK_SIZE as u32) + remaining.take(
                CHUNK_SIZE as int,
            ));
            assert(w@ + chunks_encoding(cipher@.skip(i + CHUNK_SIZE)) =~= before + chunks_encoding(
                remaining,
            ));
        }
        i = i + CHUNK_SIZE;
    }
    let ghost before_last = w@;
    let ghost remaining = cipher@.skip(i as int);
    let last_len = cipher.len() - i;
    if last_len > 0 {
        let mut prefix = u32_to_be_vec(last_len as u32);
        w.append(&mut prefix);
        w.extend_from_slice(slice_subrange(cipher.as_slice(), i, i + last_len));
        proof {
            assert(remaining =~= cipher@.subrange(i as int, i + last_len));
        }
    }
    let mut stop = u32_to_be_vec(0);
    w.append(&mut stop);
    proof {
        if last_len > 0 {
            assert(chunks_encoding(remaining) == be32_bytes(remaining.len() as u32) + remaining
                + be32_bytes(0));
            assert(w@ =~= before_last + chunks_encoding(remaining));
        } else {
            assert(remaining =~= Seq::<u8>::empty());
            assert(chunks_encoding(remaining) == be32_bytes(0));
            assert(w@ =~= before_last + chunks_encoding(remaining));
        }
        assert(w@ =~= header + chunks_encoding(cipher@));
        assert(w@ == full);
    }
    Ok(w)
}

/// Read one whole OED from `wire`, which must hold exactly one datagram.
/// Returns (nonce, tag, ciphertext).
pub fn oed_parse_wire(wire: &[u8]) -> (r: Result<(Vec<u8>, Vec<u8>, Vec<u8>), Exception>)
    ensures
        r is Ok <==> (parse_oed(wire@) matches OedParse::Done { rest, .. } && rest.len() == 0),
        r matches Ok(p) ==> parse_oed(wire@) == (OedParse::Done {
            nonce: p.0@,
            tag: p.1@,
            cipher: p.2@,
            rest: Seq::<u8>::empty(),
        }),
        r matches Err(e) ==> {
            &&& (parse_oed(wire@) is Incomplete ==> e matches Exception::ConnectionClosed)
            &&& (parse_oed(wire@) is TooLarge ==> e matches Exception::DataTooLarge { .. })
            &&& (parse_oed(wire@) is Done ==> e matches Exception::DecryptError)
        },
{
    let n = wire.len();
    if n < 4 {
        return Err(Exception::ConnectionClosed);
    }
    let nl32 = u32_from_be_at(wire, 0);
    proof {
        assert(wire@.subrange(0, 4) =~= wire@.take(4));
    }
    if nl32 > MAX_FRAME_LEN as u32 {
        return Err(Exception::DataTooLarge { size: nl32 as usize });
    }
    let nl = nl32 as usize;
    if n - 4 < nl {
        return Err(Exception::ConnectionClosed);
    }
    let nonce = slice_to_vec(slice_subrange(wire, 4, 4 + nl));
    let ghost s1 = wire@.skip(4 + nl as int);
    if n - 4 - nl < 4 {
        proof {
            assert(s1.len() < 4);
        }
        return Err(Exception::ConnectionClosed);
    }
    let tl32 = u32_from_be_at(wire, 4 + nl);
    proof {
        assert(wire@.subrange(4 + nl as int, 4 + nl as int + 4) =~= s1.take(4));
    }
    if tl32 > MAX_FRAME_LEN as u32 {
        return Err(Exception::DataTooLarge { size: tl32 as usize });
    }
    let tl = tl32 as usize;
    if n - 8 - nl < tl {
        proof {
            assert(s1.len() < 4 + tl);
        }
        return Err(Exception::ConnectionClosed);
    }
    let tag = slice_to_vec(slice_subrange(wire, 8 + nl, 8 + nl + tl));
    proof {
        assert(tag@ =~= s1.subrange(4, 4 + tl as int));
    }
    let mut pos: usize = 8 + nl + tl;
    let ghost chunk_tail = s1.skip(4 + tl as int);
    proof {
        assert(chunk_tail =~= wire@.skip(pos as int));
        assert(parse_oed(wire@) == (match parse_chunks(chunk_tail, Seq::<u8>::empty()) {
            ChunkParse::Incomplete => OedParse::Incomplete,
            ChunkParse::TooLarge => OedParse::TooLarge,
            ChunkParse::Done { cipher, rest } => OedParse::Done {
                nonce: nonce@,
                tag: tag@,
                cipher,
                rest,
            },
        }));
    }
    let mut cipher: Vec<u8> = Vec::new();
    loop
        invariant_except_break
            parse_chunks(wire@.skip(pos as int), cipher@) == parse_chunks(
                chunk_tail,
                Seq::<u8>::empty(),
            ),
        invariant
            8 + nl + tl <= pos <= n,
            n == wire@.len(),
            cipher@.len() <= MAX_OED_LEN,
            parse_oed(wire@) == (match parse_chunks(chunk_tail, Seq::<u8>::empty()) {
                ChunkParse::Incomplete => OedParse::Incomplete,
                ChunkParse::TooLarge => OedParse::TooLarge,
                ChunkParse::Done { cipher, rest } => OedParse::Done {
                    nonce: nonce@,
                    tag: tag@,
                    cipher,
                    rest,
                },
            }),
        ensures
            parse_chunks(chunk_tail, Seq::<u8>::empty()) == (ChunkParse::Done {
                cipher: cipher@,
                rest: wire@.skip(pos as int),
            }),
        decreases n - pos,
    {
        let ghost remaining = wire@.skip(pos as int);
        if n - pos < 4 {
            proof {
                assert(remaining.len() < 4);
            }
            return Err(Exception::ConnectionClosed);
        }
        let l32 = u32_from_be_at(wire, pos);
        proof {
            assert(wire@.subrange(pos as int, pos as int + 4) =~= remaining.take(4));
        }
        if l32 == 0 {
            pos = pos + 4;
            proof {
                assert(wire@.skip(pos as int) =~= remaining.skip(4));
            }
            break ;
        }
        let l = l32 as usize;
        if l > MAX_OED_LEN || cipher.len() + l > MAX_OED_LEN {
            return Err(Exception::DataTooLarge { size: l });
        }
        if n - pos - 4 < l {
            proof {
                assert(remaining.len() < 4 + l);
            }
            return Err(Exception::ConnectionClosed);
        }
        let ghost cipher_before = cipher@;
        cipher.extend_from_slice(slice_subrange(wire, pos + 4, pos + 4 + l));
        proof {
            assert(cipher@ =~= cipher_before + remaining.subrange(4, 4 + l as int));
            assert(wire@.skip(pos + 4 + l as int) =~= remaining.skip(4 + l as int));
        }
        pos = pos + 4 + l;
    }
    if pos != n {
        proof {
            assert(wire@.skip(pos as int).len() > 0);
        }
        return Err(Exception::DecryptError);
    }
    proof {
        assert(wire@.skip(pos as int) =~= Seq::<u8>::empty());
    }
    Ok((nonce, tag, cipher))
}

/// What decoding a whole OED under a key yields.
pub enum DecodeOutcome {
    /// The recovered plaintext.
    Plain(Seq<u8>),
    /// The wire bytes end inside the datagram.
    NeedMore,
    /// A length prefix exceeds its defensive bound.
    TooLarge,
    /// The frame is malformed or the tag does not authenticate.
    Failed,
}

/// Decode one complete OED: scan the frame, then open the ciphertext.
pub open spec fn oed_decode_spec(wire: Seq<u8>, key: Seq<u8>) -> DecodeOutcome {
    match parse_oed(wire) {
        OedParse::Incomplete => DecodeOutcome::NeedMore,
        OedParse::TooLarge => DecodeOutcome::TooLarge,
        OedParse::Done { nonce, tag, cipher, rest } => if rest.len() != 0 {
            DecodeOutcome::Failed
        } else {
            match open_outcome(key, nonce, cipher, tag) {
                Some(p) => DecodeOutcome::Plain(p),
                None => DecodeOutcome::Failed,
            }
        },
    }
}

/// Decode one complete OED from `wire` under `aes_key`.
pub fn oed_decode(wire: &[u8], aes_key: &[u8]) -> (r: Result<Vec<u8>, Exception>)
    ensures
        r is Ok <==> oed_decode_spec(wire@, aes_key@) is Plain,
        r matches Ok(p) ==> oed_decode_spec(wire@, aes_key@) == DecodeOutcome::Plain(p@),
        r matches Err(e) ==> {
            &&& (oed_decode_spec(wire@, aes_key@) is NeedMore ==> e matches
                Exception::ConnectionClosed)
            &&& (oed_decode_spec(wire@, aes_key@) is TooLarge ==> e matches
                Exception::DataTooLarge { .. })
            &&& (oed_decode_spec(wire@, aes_key@) is Failed ==> e matches Exception::DecryptError)
        },
{
    let (nonce, tag, cipher) = match oed_parse_wire(wire) {
        Ok(t) => t,
        Err(e) => {
            return Err(e);
        },
    };
    decrypt_bytes(cipher, tag.as_slice(), aes_key, nonce.as_slice())
}

/// Seal `data` under `aes_key` with a fresh random nonce and write the OED
/// wire image. Decoding the image under the same key returns `data`: that
/// holds of every nonce the sealing may have drawn.
pub fn oed_encode(data: Vec<u8>, aes_key: &[u8]) -> (r: Result<Vec<u8>, Exception>)
    ensures
        r matches Ok(w) ==> oed_decode_spec(w@, aes_key@) == DecodeOutcome::Plain(data@),
        aes_key@.len() != 16 ==> (r matches Err(e) && e matches Exception::EncryptError),
        aes_key@.len() == 16 && data@.len() > MAX_OED_LEN ==> (r matches Err(e) && e matches
            Exception::DataTooLarge { .. }),
        r matches Err(e) ==> {
            &&& (e matches Exception::DataTooLarge { .. } ==> data@.len() > MAX_OED_LEN)
            &&& (e matches Exception::EncryptError || e matches Exception::DataTooLarge { .. })
        },
{
    let (cipher, tag, nonce) = match encrypt_bytes(data, aes_key) {
        Ok(t) => t,
        Err(e) => {
            return Err(e);
        },
    };
    let w = match oed_encode_wire(&nonce, &tag, &cipher) {
        Ok(w) => w,
        Err(e) => {
            return Err(e);
        },
    };
    proof {
        lemma_parse_oed_of_wire(nonce@, tag@, cipher@);
    }
    Ok(w)
}

/// Oblivion Status Code: a bare 4-byte big-endian control integer. Value 0
/// precedes a normal message, value 1 a terminal one; other values are
/// opaque to the core.
pub struct OSC {
    pub status_code: u32,
}

impl OSC {
    pub fn from_u32(status_code: u32) -> (r: Self)
        ensures
            r.status_code == status_code,
    {
        Self { status_code }
    }

    /// The 4-byte wire image of this status code.
    pub fn to_bytes(&self) -> (r: Vec<u8>)
        ensures
            r@ == be32_bytes(self.status_code),
    {
        u32_to_be_vec(self.status_code)
    }

    /// Read a status code back from its 4-byte wire image.
    pub fn from_bytes(bytes: &[u8]) -> (r: Result<Self, Exception>)
        ensures
            r is Ok <==> bytes@.len() == 4,
            r matches Ok(osc) ==> osc.status_code == be32_value(bytes@),
            r matches Err(e) ==> e matches Exception::ConnectionClosed,
    {
        if bytes.len() != 4 {
            return Err(Exception::ConnectionClosed);
        }
        let v = u32_from_be_at(bytes, 0);
        proof {
            assert(bytes@.subrange(0, 4) =~= bytes@);
        }
        Ok(Self { status_code: v })
    }
}

/// Oblivion Encrypted Datagram: one AEAD-sealed byte string together with
/// the session key it is sealed under.
pub struct OED {
    aes_key: Vec<u8>,
    data: Option<Vec<u8>>,
    encrypted_data: Vec<u8>,
    tag: Vec<u8>,
    nonce: Vec<u8>,
}

impl OED {
    /// The session key this datagram is sealed under.
    pub closed spec fn spec_key(&self) -> Seq<u8> {
        self.aes_key@
    }

    /// The plaintext, once known: set by encryption inputs or by decoding.
    pub closed spec fn spec_data(&self) -> Option<Seq<u8>> {
        match self.data {
            Some(ref d) => Some(d@),
            None => None,
        }
    }

    pub closed spec fn spec_cipher(&self) -> Seq<u8> {
        self.encrypted_data@
    }

    pub closed spec fn spec_tag(&self) -> Seq<u8> {
        self.tag@
    }

    pub closed spec fn spec_nonce(&self) -> Seq<u8> {
        self.nonce@
    }

    pub fn new(aes_key: &[u8]) -> (r: Self)
        ensures
            r.spec_key() == aes_key@,
            r.spec_data() is None,
            r.spec_cipher().len() == 0,
            r.spec_tag().len() == 0,
            r.spec_nonce().len() == 0,
    {
        Self {
            aes_key: slice_to_vec(aes_key),
            data: None,
            encrypted_data: Vec::new(),
            tag: Vec::new(),
            nonce: Vec::new(),
        }
    }

    /// Seal the UTF-8 bytes of a JSON text or plain string into this
    /// datagram, under a fresh random nonce.
    pub fn from_json_or_string(&mut self, json_or_str: String) -> (r: Result<(), Exception>)
        ensures
            final(self).spec_key() == old(self).spec_key(),
            final(self).spec_data() == old(self).spec_data(),
            r is Ok ==> final(self).sealed_over(vstd::utf8::encode_utf8(json_or_str@)),
    {
        let (cipher, tag, nonce) = match encrypt_plaintext(json_or_str, self.aes_key.as_slice()) {
            Ok(t) => t,
            Err(e) => {
                return Err(e);
            },
        };
        self.encrypted_data = cipher;
        self.tag = tag;
        self.nonce = nonce;
        Ok(())
    }

    /// The datagram's parts seal exactly `plain` under its key: the
    /// ciphertext is as long as the plaintext, and opening it gives the
    /// plaintext back.
    pub open spec fn sealed_over(&self, plain: Seq<u8>) -> bool {
        &&& self.spec_key().len() == 16
        &&& self.spec_nonce().len() == 12
        &&& self.spec_tag().len() == 16
        &&& self.spec_cipher().len() == plain.len()
        &&& self.spec_cipher().len() <= MAX_OED_LEN
        &&& gcm_open(self.spec_key(), self.spec_nonce(), self.spec_cipher(), self.spec_tag())
            == Some(plain)
    }

    /// Seal binary data into this datagram, under a fresh random nonce.
    pub fn from_bytes(&mut self, data: Vec<u8>) -> (r: Result<(), Exception>)
        ensures
            final(self).spec_key() == old(self).spec_key(),
            final(self).spec_data() == old(self).spec_data(),
            r is Ok ==> final(self).sealed_over(data@),
            old(self).spec_key().len() != 16 ==> (r matches Err(e) && e matches
                Exception::EncryptError),
            old(self).spec_key().len() == 16 && data@.len() > MAX_OED_LEN ==> (r matches Err(e)
                && e matches Exception::DataTooLarge { .. }),
    {
        let (cipher, tag, nonce) = match encrypt_bytes(data, self.aes_key.as_slice()) {
            Ok(t) => t,
            Err(e) => {
                return Err(e);
            },
        };
        self.encrypted_data = cipher;
        self.tag = tag;
        self.nonce = nonce;
        Ok(())
    }

    /// Adopt an already sealed ciphertext without a nonce or tag.
    pub fn from_encrypted_data(&mut self, data: Vec<u8>)
        ensures
            final(self).spec_key() == old(self).spec_key(),
            final(self).spec_cipher() == data@,
            final(self).spec_data() == old(self).spec_data(),
            final(self).spec_tag() == old(self).spec_tag(),
            final(self).spec_nonce() == old(self).spec_nonce(),
    {
        self.encrypted_data = data;
    }

    /// Read a whole datagram back from its wire image and open it; the
    /// plaintext is then held for `take` or `get_data`.
    pub fn from_wire(&mut self, wire: &[u8]) -> (r: Result<(), Exception>)
        ensures
            final(self).spec_key() == old(self).spec_key(),
            r is Ok <==> oed_decode_spec(wire@, old(self).spec_key()) is Plain,
            r is Ok ==> final(self).spec_data() == Some(
                oed_decode_spec(wire@, old(self).spec_key())->Plain_0,
            ),
    {
        let (nonce, tag, cipher) = match oed_parse_wire(wire) {
            Ok(t) => t,
            Err(e) => {
                return Err(e);
            },
        };
        let plain = match decrypt_bytes(cipher, tag.as_slice(), self.aes_key.as_slice(), nonce.as_slice()) {
            Ok(p) => p,
            Err(e) => {
                return Err(e);
            },
        };
        proof {
            assert(oed_decode_spec(wire@, old(self).spec_key()) == DecodeOutcome::Plain(plain@));
        }
        self.nonce = nonce;
        self.tag = tag;
        self.data = Some(plain);
        Ok(())
    }

    /// Write this datagram's wire image: header, chunked ciphertext, stop
    /// flag.
    pub fn to_wire(&self) -> (r: Result<Vec<u8>, Exception>)
        ensures
            r is Ok <==> self.spec_nonce().len() <= MAX_FRAME_LEN && self.spec_tag().len()
                <= MAX_FRAME_LEN && self.spec_cipher().len() <= MAX_OED_LEN,
            r matches Ok(w) ==> w@ == oed_wire(
                self.spec_nonce(),
                self.spec_tag(),
                self.spec_cipher(),
            ),
    {
        oed_encode_wire(&self.nonce, &self.tag, &self.encrypted_data)
    }

    /// The framed header: length-prefixed nonce, then length-prefixed tag.
    pub fn plain_data(&self) -> (r: Result<Vec<u8>, Exception>)
        ensures
            r is Ok <==> self.spec_nonce().len() <= MAX_FRAME_LEN && self.spec_tag().len()
                <= MAX_FRAME_LEN,
            r matches Ok(v) ==> v@ == be32_bytes(self.spec_nonce().len() as u32)
                + self.spec_nonce() + be32_bytes(self.spec_tag().len() as u32) + self.spec_tag(),
    {
        let nonce_prefix = match length(self.nonce.as_slice()) {
            Ok(a) => a,
            Err(e) => {
                return Err(e);
            },
        };
        let tag_prefix = match length(self.tag.as_slice()) {
            Ok(a) => a,
            Err(e) => {
                return Err(e);
            },
        };
        let mut v: Vec<u8> = Vec::new();
        v.extend_from_slice(nonce_prefix.as_slice());
        v.extend_from_slice(self.nonce.as_slice());
        v.extend_from_slice(tag_prefix.as_slice());
        v.extend_from_slice(self.tag.as_slice());
        proof {
            assert(v@ =~= be32_bytes(self.spec_nonce().len() as u32) + self.spec_nonce()
                + be32_bytes(self.spec_tag().len() as u32) + self.spec_tag());
        }
        Ok(v)
    }

    /// Move the decoded plaintext out of the datagram.
    pub fn take(&mut self) -> (r: Vec<u8>)
        requires
            old(self).spec_data() is Some,
        ensures
            Some(r@) == old(self).spec_data(),
            final(self).spec_data() is None,
            final(self).spec_key() == old(self).spec_key(),
    {
        match self.data.take() {
            Some(d) => d,
            None => Vec::new(),
        }
    }

    /// Borrow the decoded plaintext.
    pub fn get_data(&self) -> (r: &Vec<u8>)
        requires
            self.spec_data() is Some,
        ensures
            Some(r@) == self.spec_data(),
    {
        match &self.data {
            Some(d) => d,
            None => {
                proof {
                    assert(false);
                }
                &self.encrypted_data
            },
        }
    }
}

/// Where a byte stream stands in the walk of one OED frame: which field
/// is open, how many of its bytes are still missing, and how much
/// ciphertext the chunk records so far announce.
pub enum ScanState {
    /// Inside the nonce length prefix, `have` of its 4 bytes present.
    NonceLen { have: int },
    /// Inside the nonce, `need` bytes missing and `got` present.
    NonceBody { need: int, got: int },
    /// Inside the tag length prefix.
    TagLen { have: int },
    /// Inside the tag.
    TagBody { need: int, got: int },
    /// Inside a chunk length prefix, `total` ciphertext bytes announced
    /// by the records before it.
    ChunkLen { total: int, have: int },
    /// Inside a chunk's bytes.
    ChunkBody { total: int, need: int, got: int },
    /// A stop flag ended the frame.
    Finished,
    /// A length prefix broke a defensive bound.
    Failed,
}

/// Walk the chunk records of `s`, with `total` ciphertext bytes announced
/// before them.
pub open spec fn scan_chunks_stream(s: Seq<u8>, total: int) -> ScanState
    decreases s.len(),
{
    if s.len() < 4 {
        ScanState::ChunkLen { total, have: s.len() as int }
    } else {
        let l = be32_value(s.take(4)) as int;
        if l == 0 {
            ScanState::Finished
        } else if l > MAX_OED_LEN as int || total + l > MAX_OED_LEN as int {
            ScanState::Failed
        } else if s.len() < 4 + l {
            ScanState::ChunkBody { total, need: 4 + l - s.len(), got: s.len() - 4 }
        } else {
            scan_chunks_stream(s.skip(4 + l), total + l)
        }
    }
}

/// Walk the tag and then the chunk records of `s`.
pub open spec fn scan_tag_stream(s: Seq<u8>) -> ScanState {
    if s.len() < 4 {
        ScanState::TagLen { have: s.len() as int }
    } else {
        let tl = be32_value(s.take(4)) as int;
        if tl > MAX_FRAME_LEN as int {
            ScanState::Failed
        } else if s.len() < 4 + tl {
            ScanState::TagBody { need: 4 + tl - s.len(), got: s.len() - 4 }
        } else {
            scan_chunks_stream(s.skip(4 + tl), 0)
        }
    }
}

/// Where the byte stream `s`, read from the front as one OED frame,
/// stands: the judge of what an incremental reader must do next.
pub open spec fn oed_scan(s: Seq<u8>) -> ScanState {
    if s.len() < 4 {
        ScanState::NonceLen { have: s.len() as int }
    } else {
        let nl = be32_value(s.take(4)) as int;
        if nl > MAX_FRAME_LEN as int {
            ScanState::Failed
        } else if s.len() < 4 + nl {
            ScanState::NonceBody { need: 4 + nl - s.len(), got: s.len() - 4 }
        } else {
            scan_tag_stream(s.skip(4 + nl))
        }
    }
}

/// How many bytes complete the open field of a scan state.
pub open spec fn scan_demand(st: ScanState) -> int {
    match st {
        ScanState::NonceLen { have } => 4 - have,
        ScanState::NonceBody { need, .. } => need,
        ScanState::TagLen { have } => 4 - have,
        ScanState::TagBody { need, .. } => need,
        ScanState::ChunkLen { have, .. } => 4 - have,
        ScanState::ChunkBody { need, .. } => need,
        ScanState::Finished => 0,
        ScanState::Failed => 0,
    }
}

/// A stream that stands at a field boundary: no field is half read.
pub open spec fn scan_boundary(st: ScanState) -> bool {
    match st {
        ScanState::NonceLen { have } => have == 0,
        ScanState::NonceBody { got, .. } => got == 0,
        ScanState::TagLen { have } => have == 0,
        ScanState::TagBody { got, .. } => got == 0,
        ScanState::ChunkLen { have, .. } => have == 0,
        ScanState::ChunkBody { got, .. } => got == 0,
        ScanState::Finished => true,
        ScanState::Failed => true,
    }
}

/// What appending one whole field does to the walk.
pub open spec fn scan_step(st: ScanState, piece: Seq<u8>) -> ScanState {
    match st {
        ScanState::NonceLen { .. } => {
            let nl = be32_value(piece.take(4)) as int;
            if nl > MAX_FRAME_LEN as int {
                ScanState::Failed
            } else if nl == 0 {
                ScanState::TagLen { have: 0 }
            } else {
                ScanState::NonceBody { need: nl, got: 0 }
            }
        },
        ScanState::NonceBody { .. } => ScanState::TagLen { have: 0 },
        ScanState::TagLen { .. } => {
            let tl = be32_value(piece.take(4)) as int;
            if tl > MAX_FRAME_LEN as int {
                ScanState::Failed
            } else if tl == 0 {
                ScanState::ChunkLen { total: 0, have: 0 }
            } else {
                ScanState::TagBody { need: tl, got: 0 }
            }
        },
        ScanState::TagBody { .. } => ScanState::ChunkLen { total: 0, have: 0 },
        ScanState::ChunkLen { total, .. } => {
            let l = be32_value(piece.take(4)) as int;
            if l == 0 {
                ScanState::Finished
            } else if l > MAX_OED_LEN as int || total + l > MAX_OED_LEN as int {
                ScanState::Failed
            } else {
                ScanState::ChunkBody { total, need: l, got: 0 }
            }
        },
        ScanState::ChunkBody { total, need, .. } => ScanState::ChunkLen {
            total: total + need,
            have: 0,
        },
        ScanState::Finished => ScanState::Finished,
        ScanState::Failed => ScanState::Failed,
    }
}

/// Appending exactly the bytes the chunk walk demands advances it by one
/// step.
proof fn lemma_scan_chunks_feed(s: Seq<u8>, total: int, b: Seq<u8>)
    requires
        scan_boundary(scan_chunks_stream(s, total)),
        !(scan_chunks_stream(s, total) is Finished),
        !(scan_chunks_stream(s, total) is Failed),
        b.len() == scan_demand(scan_chunks_stream(s, total)),
    ensures
        scan_chunks_stream(s + b, total) == scan_step(scan_chunks_stream(s, total), b),
    decreases s.len(),
{
    if s.len() < 4 {
        assert(s.len() == 0);
        assert(s + b =~= b);
        assert(b.take(4) =~= b);
        assert(scan_chunks_stream(s + b, total) == scan_chunks_stream(b, total));
    } else {
        let l = be32_value(s.take(4)) as int;
        assert((s + b).take(4) =~= s.take(4));
        if l == 0 {
            // Finished: excluded by the requires.
        } else if l > MAX_OED_LEN as int || total + l > MAX_OED_LEN as int {
            // Failed: excluded by the requires.
        } else if s.len() < 4 + l {
            assert(s.len() == 4);
            assert((s + b).len() == 4 + l);
            assert((s + b).skip(4 + l) =~= Seq::<u8>::empty());
            assert(scan_chunks_stream(Seq::<u8>::empty(), total + l) == (ScanState::ChunkLen {
                total: total + l,
                have: 0,
            }));
        } else {
            assert((s + b).skip(4 + l) =~= s.skip(4 + l) + b);
            lemma_scan_chunks_feed(s.skip(4 + l), total + l, b);
        }
    }
}

/// Appending exactly the bytes the tag walk demands advances it by one
/// step.
proof fn lemma_scan_tag_feed(s: Seq<u8>, b: Seq<u8>)
    requires
        scan_boundary(scan_tag_stream(s)),
        !(scan_tag_stream(s) is Finished),
        !(scan_tag_stream(s) is Failed),
        b.len() == scan_demand(scan_tag_stream(s)),
    ensures
        scan_tag_stream(s + b) == scan_step(scan_tag_stream(s), b),
{
    if s.len() < 4 {
        assert(s.len() == 0);
        assert(s + b =~= b);
        assert(b.take(4) =~= b);
        let tl = be32_value(b.take(4)) as int;
        if tl <= MAX_FRAME_LEN as int && tl == 0 {
            assert(b.skip(4) =~= Seq::<u8>::empty());
            assert(scan_chunks_stream(b.skip(4), 0) == (ScanState::ChunkLen {
                total: 0,
                have: 0,
            }));
        }
    } else {
        let tl = be32_value(s.take(4)) as int;
        assert((s + b).take(4) =~= s.take(4));
        if tl > MAX_FRAME_LEN as int {
            // Failed: excluded by the requires.
        } else if s.len() < 4 + tl {
            assert(s.len() == 4);
            assert((s + b).len() == 4 + tl);
            assert((s + b).skip(4 + tl) =~= Seq::<u8>::empty());
            assert(scan_chunks_stream(Seq::<u8>::empty(), 0) == (ScanState::ChunkLen {
                total: 0,
                have: 0,
            }));
        } else {
            assert((s + b).skip(4 + tl) =~= s.skip(4 + tl) + b);
            lemma_scan_chunks_feed(s.skip(4 + tl), 0, b);
        }
    }
}

/// Appending exactly the bytes the frame walk demands advances it by one
/// step.
proof fn lemma_oed_scan_feed(s: Seq<u8>, b: Seq<u8>)
    requires
        scan_boundary(oed_scan(s)),
        !(oed_scan(s) is Finished),
        !(oed_scan(s) is Failed),
        b.len() == scan_demand(oed_scan(s)),
    ensures
        oed_scan(s + b) == scan_step(oed_scan(s), b),
{
    if s.len() < 4 {
        assert(s.len() == 0);
        assert(s + b =~= b);
        assert(b.take(4) =~= b);
        let nl = be32_value(b.take(4)) as int;
        if nl <= MAX_FRAME_LEN as int && nl == 0 {
            assert(b.skip(4) =~= Seq::<u8>::empty());
        }
    } else {
        let nl = be32_value(s.take(4)) as int;
        assert((s + b).take(4) =~= s.take(4));
        if nl > MAX_FRAME_LEN as int {
            // Failed: excluded by the requires.
        } else if s.len() < 4 + nl {
            assert(s.len() == 4);
            assert((s + b).len() == 4 + nl);
            assert((s + b).skip(4 + nl) =~= Seq::<u8>::empty());
        } else {
            assert((s + b).skip(4 + nl) =~= s.skip(4 + nl) + b);
            lemma_scan_tag_feed(s.skip(4 + nl), b);
        }
    }
}

/// A chunk walk that found the stop flag scans back as complete chunk
/// records.
proof fn lemma_chunks_scan_parse(s: Seq<u8>, total: int, acc: Seq<u8>)
    requires
        0 <= total,
        acc.len() == total,
        scan_chunks_stream(s, total) is Finished,
    ensures
        parse_chunks(s, acc) is Done,
    decreases s.len(),
{
    let l = be32_value(s.take(4)) as int;
    if l == 0 {
    } else {
        assert(s.len() >= 4 + l);
        lemma_chunks_scan_parse(s.skip(4 + l), total + l, acc + s.subrange(4, 4 + l));
    }
}

/// The incremental walk and the whole-buffer parse agree: a stream the
/// walk finishes holds one complete, bounded datagram at its front.
pub proof fn lemma_scan_finished_parses(s: Seq<u8>)
    requires
        oed_scan(s) is Finished,
    ensures
        parse_oed(s) matches OedParse::Done { .. },
{
    let nl = be32_value(s.take(4)) as int;
    assert(s.len() >= 4 + nl);
    let s1 = s.skip(4 + nl);
    let tl = be32_value(s1.take(4)) as int;
    assert(s1.len() >= 4 + tl);
    lemma_chunks_scan_parse(s1.skip(4 + tl), 0, Seq::empty());
}

/// Where an incremental OED reader stands in the frame.
pub enum ReaderPhase {
    /// Waiting for the nonce length prefix.
    NonceLen,
    /// Waiting for the nonce bytes.
    NonceBody,
    /// Waiting for the tag length prefix.
    TagLen,
    /// Waiting for the tag bytes.
    TagBody,
    /// Waiting for a chunk length prefix or the stop flag.
    ChunkLen,
    /// Waiting for the bytes of one chunk.
    ChunkBody,
    /// The stop flag arrived: the frame is complete.
    Finished,
    /// A length prefix broke a defensive bound.
    Failed,
}

/// Reads one OED from a byte stream, a piece at a time. The reader says
/// how many bytes it wants next; the caller reads exactly that many and
/// feeds them. The reader's phase tracks `oed_scan` of every byte fed,
/// and once the frame is complete, `take_wire` hands the whole image back
/// for decoding.
pub struct OedReader {
    phase: ReaderPhase,
    need: usize,
    buf: Vec<u8>,
    total: usize,
}

impl OedReader {
    /// Every byte fed so far, in order.
    pub closed spec fn consumed(&self) -> Seq<u8> {
        self.buf@
    }

    /// The frame is complete.
    pub closed spec fn done(&self) -> bool {
        self.phase is Finished
    }

    /// A defensive bound was broken; the frame must be dropped.
    pub closed spec fn failed(&self) -> bool {
        self.phase is Failed
    }

    /// How many bytes the reader wants next.
    pub closed spec fn spec_need(&self) -> usize {
        self.need
    }

    /// The reader stands exactly where the walk of its fed bytes stands.
    pub closed spec fn wf(&self) -> bool {
        &&& self.total <= MAX_OED_LEN
        &&& match self.phase {
            ReaderPhase::NonceLen => self.need == 4 && self.total == 0 && oed_scan(self.buf@)
                == (ScanState::NonceLen { have: 0 }),
            ReaderPhase::NonceBody => 1 <= self.need <= MAX_FRAME_LEN && self.total == 0
                && oed_scan(self.buf@) == (ScanState::NonceBody {
                need: self.need as int,
                got: 0,
            }),
            ReaderPhase::TagLen => self.need == 4 && self.total == 0 && oed_scan(self.buf@)
                == (ScanState::TagLen { have: 0 }),
            ReaderPhase::TagBody => 1 <= self.need <= MAX_FRAME_LEN && self.total == 0
                && oed_scan(self.buf@) == (ScanState::TagBody {
                need: self.need as int,
                got: 0,
            }),
            ReaderPhase::ChunkLen => self.need == 4 && oed_scan(self.buf@)
                == (ScanState::ChunkLen { total: self.total as int, have: 0 }),
            ReaderPhase::ChunkBody => 1 <= self.need && self.total + self.need <= MAX_OED_LEN
                && oed_scan(self.buf@) == (ScanState::ChunkBody {
                total: self.total as int,
                need: self.need as int,
                got: 0,
            }),
            ReaderPhase::Finished => self.need == 0 && oed_scan(self.buf@) is Finished,
            ReaderPhase::Failed => self.need == 0 && oed_scan(self.buf@) is Failed,
        }
    }

    pub fn new() -> (r: Self)
        ensures
            r.wf(),
            !r.done(),
            !r.failed(),
            r.consumed().len() == 0,
    {
        Self { phase: ReaderPhase::NonceLen, need: 4, buf: Vec::new(), total: 0 }
    }

    /// How many bytes to read and feed next: what the walk of the fed
    /// bytes demands; zero once done or failed.
    pub fn needed(&self) -> (r: usize)
        requires
            self.wf(),
        ensures
            r == self.spec_need(),
            r as int == scan_demand(oed_scan(self.consumed())),
            r == 0 <==> self.done() || self.failed(),
    {
        self.need
    }

    /// Whether the frame is complete.
    pub fn is_done(&self) -> (r: bool)
        ensures
            r == self.done(),
    {
        match self.phase {
            ReaderPhase::Finished => true,
            _ => false,
        }
    }

    /// Feed exactly the requested bytes: the walk of the fed stream
    /// advances by one field, and the reader reports exactly what the
    /// walk says. Returns true once the stop flag ended the frame; an
    /// error means a length prefix broke a defensive bound.
    pub fn feed(&mut self, bytes: Vec<u8>) -> (r: Result<bool, Exception>)
        requires
            old(self).wf(),
            !old(self).done(),
            !old(self).failed(),
            bytes@.len() == old(self).spec_need(),
        ensures
            final(self).wf(),
            final(self).consumed() == old(self).consumed() + bytes@,
            oed_scan(final(self).consumed()) == scan_step(oed_scan(old(self).consumed()), bytes@),
            final(self).done() <==> oed_scan(final(self).consumed()) is Finished,
            final(self).failed() <==> oed_scan(final(self).consumed()) is Failed,
            !final(self).done() && !final(self).failed() ==> final(self).spec_need() as int
                == scan_demand(oed_scan(final(self).consumed())),
            r matches Ok(true) <==> final(self).done(),
            r matches Ok(false) <==> !final(self).done() && !final(self).failed(),
            r is Err <==> final(self).failed(),
            r matches Err(e) ==> e matches Exception::DataTooLarge { .. },
    {
        let ghost old_buf = self.buf@;
        proof {
            lemma_oed_scan_feed(old_buf, bytes@);
        }
        let is_len_phase = match self.phase {
            ReaderPhase::NonceLen => true,
            ReaderPhase::TagLen => true,
            ReaderPhase::ChunkLen => true,
            _ => false,
        };
        let prefix: u32 = if is_len_phase {
            let p = u32_from_be_at(bytes.as_slice(), 0);
            proof {
                assert(bytes@.subrange(0, 4) =~= bytes@.take(4));
            }
            p
        } else {
            0
        };
        let fed = bytes.len();
        let mut moved = bytes;
        self.buf.append(&mut moved);
        match self.phase {
            ReaderPhase::NonceLen => {
                if prefix > MAX_FRAME_LEN as u32 {
                    self.phase = ReaderPhase::Failed;
                    self.need = 0;
                    return Err(Exception::DataTooLarge { size: prefix as usize });
                }
                if prefix == 0 {
                    self.phase = ReaderPhase::TagLen;
                    self.need = 4;
                } else {
                    self.phase = ReaderPhase::NonceBody;
                    self.need = prefix as usize;
                }
                Ok(false)
            },
            ReaderPhase::NonceBody => {
                self.phase = ReaderPhase::TagLen;
                self.need = 4;
                Ok(false)
            },
            ReaderPhase::TagLen => {
                if prefix > MAX_FRAME_LEN as u32 {
                    self.phase = ReaderPhase::Failed;
                    self.need = 0;
                    return Err(Exception::DataTooLarge { size: prefix as usize });
                }
                if prefix == 0 {
                    self.phase = ReaderPhase::ChunkLen;
                    self.need = 4;
                } else {
                    self.phase = ReaderPhase::TagBody;
                    self.need = prefix as usize;
                }
                Ok(false)
            },
            ReaderPhase::TagBody => {
                self.phase = ReaderPhase::ChunkLen;
                self.need = 4;
                Ok(false)
            },
            ReaderPhase::ChunkLen => {
                if prefix == 0 {
                    self.phase = ReaderPhase::Finished;
                    self.need = 0;
                    return Ok(true);
                }
                let l = prefix as usize;
                if l > MAX_OED_LEN || self.total + l > MAX_OED_LEN {
                    self.phase = ReaderPhase::Failed;
                    self.need = 0;
                    return Err(Exception::DataTooLarge { size: l });
                }
                self.phase = ReaderPhase::ChunkBody;
                self.need = l;
                Ok(false)
            },
            ReaderPhase::ChunkBody => {
                self.total = self.total + fed;
                self.phase = ReaderPhase::ChunkLen;
                self.need = 4;
                Ok(false)
            },
            ReaderPhase::Finished => Err(Exception::DataTooLarge { size: 0 }),
            ReaderPhase::Failed => Err(Exception::DataTooLarge { size: 0 }),
        }
    }

    /// Hand back the complete wire image of the frame: it holds one
    /// complete datagram, ready for decoding.
    pub fn take_wire(self) -> (r: Vec<u8>)
        requires
            self.wf(),
            self.done(),
        ensures
            r@ == self.consumed(),
            parse_oed(r@) matches OedParse::Done { .. },
    {
        proof {
            lemma_scan_finished_parses(self.buf@);
        }
        self.buf
    }
}

/// Oblivion Key Exchange: one peer's view of the ephemeral X25519
/// agreement plus the server-chosen salt, from which the 16-byte session
/// key is derived.
pub struct OKE {
    public_key: Vec<u8>,
    private_key: Option<ring::agreement::EphemeralPrivateKey>,
    salt: Vec<u8>,
    remote_public_key: Option<Vec<u8>>,
    shared_aes_key: Option<[u8; 16]>,
    secret: Ghost<Seq<u8>>,
}

impl OKE {
    /// This peer's own public key bytes.
    pub closed spec fn spec_public_key(&self) -> Seq<u8> {
        self.public_key@
    }

    /// The salt that the session key is derived with.
    pub closed spec fn spec_salt(&self) -> Seq<u8> {
        self.salt@
    }

    /// Whether the ephemeral private key is still held (not yet consumed).
    pub closed spec fn has_private_key(&self) -> bool {
        self.private_key is Some
    }

    /// The derived session key, once the agreement has run.
    pub closed spec fn spec_aes_key(&self) -> Option<Seq<u8>> {
        match self.shared_aes_key {
            Some(k) => Some(k@),
            None => None,
        }
    }

    /// The shared secret the agreement produced, as a ghost value.
    pub closed spec fn spec_secret(&self) -> Seq<u8> {
        self.secret@
    }

    /// The derived key is exactly HKDF-SHA-256 of the agreement's secret
    /// and this packet's salt.
    pub open spec fn key_derivation_ok(&self) -> bool {
        self.spec_aes_key() matches Some(k) ==> k == crate::utils::generator::hkdf16(
            self.spec_secret(),
            self.spec_salt(),
        )
    }

    /// Make a key-exchange packet with a fresh random 16-byte salt.
    pub fn new(
        private_key: Option<ring::agreement::EphemeralPrivateKey>,
        public_key: Vec<u8>,
    ) -> (r: Result<OKE, Exception>)
        ensures
            r matches Ok(o) ==> {
                &&& o.spec_public_key() == public_key@
                &&& o.spec_salt().len() == 16
                &&& o.has_private_key() == (private_key is Some)
                &&& o.spec_aes_key() is None
            },
            r matches Err(e) ==> e matches Exception::KeyAgreementError,
    {
        let has_private = private_key.is_some();
        let salt = match generate_random_salt() {
            Ok(s) => s,
            Err(e) => {
                return Err(e);
            },
        };
        Ok(OKE {
            public_key,
            private_key,
            salt,
            remote_public_key: None,
            shared_aes_key: None,
            secret: Ghost(Seq::empty()),
        })
    }

    /// Replace this peer's own public key bytes.
    pub fn from_public_key_bytes(&mut self, public_key_bytes: &[u8])
        ensures
            final(self).spec_public_key() == public_key_bytes@,
            final(self).spec_salt() == old(self).spec_salt(),
            final(self).has_private_key() == old(self).has_private_key(),
            final(self).spec_aes_key() == old(self).spec_aes_key(),
    {
        self.public_key = slice_to_vec(public_key_bytes);
    }

    /// Run the agreement against the peer's public key and derive the
    /// session key with this packet's own salt. Consumes the private key.
    pub fn from_remote_public_key(&mut self, remote_public_key_bytes: Vec<u8>) -> (r: Result<
        (),
        Exception,
    >)
        requires
            old(self).has_private_key(),
            old(self).spec_aes_key() is None,
        ensures
            !final(self).has_private_key(),
            final(self).spec_public_key() == old(self).spec_public_key(),
            final(self).spec_salt() == old(self).spec_salt(),
            r is Ok <==> final(self).spec_aes_key() is Some,
            r is Ok ==> (final(self).spec_aes_key() matches Some(k) && k.len() == 16),
            final(self).key_derivation_ok(),
            r is Err ==> final(self).spec_aes_key() == old(self).spec_aes_key(),
            r matches Err(e) ==> e matches Exception::KeyAgreementError,
    {
        let private_key = match self.private_key.take() {
            Some(pk) => pk,
            None => {
                return Err(Exception::KeyAgreementError);
            },
        };
        self.remote_public_key = Some(remote_public_key_bytes);
        let shared = match crate::utils::generator::SharedKey::new(
            private_key,
            match &self.remote_public_key {
                Some(r) => r,
                None => {
                    return Err(Exception::KeyAgreementError);
                },
            },
        ) {
            Ok(s) => s,
            Err(e) => {
                return Err(e);
            },
        };
        let aes = shared.hkdf(self.salt.as_slice());
        self.secret = Ghost(shared.secret());
        self.shared_aes_key = Some(aes);
        Ok(())
    }

    /// Run the agreement with a salt received from the peer: adopt the
    /// salt, then derive the session key. Consumes the private key.
    pub fn from_remote_public_key_with_salt(
        &mut self,
        remote_public_key_bytes: Vec<u8>,
        salt: Vec<u8>,
    ) -> (r: Result<(), Exception>)
        requires
            old(self).has_private_key(),
            old(self).spec_aes_key() is None,
        ensures
            !final(self).has_private_key(),
            final(self).spec_public_key() == old(self).spec_public_key(),
            final(self).spec_salt() == salt@,
            r is Ok <==> final(self).spec_aes_key() is Some,
            r is Ok ==> (final(self).spec_aes_key() matches Some(k) && k.len() == 16),
            final(self).key_derivation_ok(),
            r is Err ==> final(self).spec_aes_key() == old(self).spec_aes_key(),
            r matches Err(e) ==> e matches Exception::KeyAgreementError,
    {
        self.salt = salt;
        self.from_remote_public_key(remote_public_key_bytes)
    }

    /// The framed own public key: length prefix, then the key bytes.
    pub fn plain_data(&self) -> (r: Result<Vec<u8>, Exception>)
        ensures
            r is Ok <==> self.spec_public_key().len() <= MAX_FRAME_LEN,
            r matches Ok(v) ==> v@ == be32_bytes(self.spec_public_key().len() as u32)
                + self.spec_public_key(),
    {
        let prefix = match length(self.public_key.as_slice()) {
            Ok(a) => a,
            Err(e) => {
                return Err(e);
            },
        };
        let mut v: Vec<u8> = Vec::new();
        v.extend_from_slice(prefix.as_slice());
        v.extend_from_slice(self.public_key.as_slice());
        proof {
            assert(v@ =~= be32_bytes(self.spec_public_key().len() as u32)
                + self.spec_public_key());
        }
        Ok(v)
    }

    /// The framed salt: length prefix, then the salt bytes.
    pub fn plain_salt(&self) -> (r: Result<Vec<u8>, Exception>)
        ensures
            r is Ok <==> self.spec_salt().len() <= MAX_FRAME_LEN,
            r matches Ok(v) ==> v@ == be32_bytes(self.spec_salt().len() as u32)
                + self.spec_salt(),
    {
        let prefix = match length(self.salt.as_slice()) {
            Ok(a) => a,
            Err(e) => {
                return Err(e);
            },
        };
        let mut v: Vec<u8> = Vec::new();
        v.extend_from_slice(prefix.as_slice());
        v.extend_from_slice(self.salt.as_slice());
        proof {
            assert(v@ =~= be32_bytes(self.spec_salt().len() as u32) + self.spec_salt());
        }
        Ok(v)
    }

    /// Whether the ephemeral private key is still held.
    pub fn has_private(&self) -> (r: bool)
        ensures
            r == self.has_private_key(),
    {
        self.private_key.is_some()
    }

    /// Whether the session key has already been derived.
    pub fn key_already_derived(&self) -> (r: bool)
        ensures
            r == (self.spec_aes_key() is Some),
    {
        self.shared_aes_key.is_some()
    }

    /// The derived 16-byte session key.
    pub fn get_aes_key(&self) -> (r: [u8; 16])
        requires
            self.spec_aes_key() is Some,
        ensures
            Some(r@) == self.spec_aes_key(),
    {
        match self.shared_aes_key {
            Some(k) => k,
            None => {
                proof {
                    assert(false);
                }
                [0u8; 16]
            },
        }
    }
}

} // verus!
