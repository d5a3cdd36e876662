//! Framing primitives and the request/endpoint parsers.
//!
//! Everything on the wire is framed with 4-byte big-endian length prefixes;
//! this module gives those prefixes an exact mathematical meaning and holds
//! the plaintext parsers for request headers and endpoint strings.
use crate::exceptions::Exception;
use vstd::prelude::*;
use vstd::slice::{slice_subrange, slice_to_vec};

verus! {

/// Largest byte count that a `length` prefix may announce.
pub const MAX_FRAME_LEN: usize = 2048;

/// The four big-endian bytes that encode `x`.
pub open spec fn be32_bytes(x: u32) -> Seq<u8> {
    seq![
        ((x >> 24) & 0xff) as u8,
        ((x >> 16) & 0xff) as u8,
        ((x >> 8) & 0xff) as u8,
        (x & 0xff) as u8,
    ]
}

/// The unsigned 32-bit value that four big-endian bytes denote.
pub open spec fn be32_value(s: Seq<u8>) -> u32
    recommends
        s.len() == 4,
{
    (((s[0] as u32) << 24) | ((s[1] as u32) << 16) | ((s[2] as u32) << 8) | (s[3] as u32)) as u32
}

pub proof fn lemma_be32_value_of_bytes(x: u32)
    ensures
        be32_bytes(x).len() == 4,
        be32_value(be32_bytes(x)) == x,
{
    let s = be32_bytes(x);
    assert(((((((x >> 24) & 0xff) as u8) as u32) << 24) | (((((x >> 16) & 0xff) as u8) as u32)
        << 16) | (((((x >> 8) & 0xff) as u8) as u32) << 8) | ((((x & 0xff) as u8) as u32)) as u32)
        == x) by (bit_vector);
}

/// Writes `x` as four big-endian bytes.
pub fn u32_to_be_vec(x: u32) -> (r: Vec<u8>)
    ensures
        r@ == be32_bytes(x),
{
    let mut r: Vec<u8> = Vec::new();
    r.push(((x >> 24) & 0xff) as u8);
    r.push(((x >> 16) & 0xff) as u8);
    r.push(((x >> 8) & 0xff) as u8);
    r.push((x & 0xff) as u8);
    proof {
        assert(r@ =~= be32_bytes(x));
    }
    r
}

/// Reads four big-endian bytes at `at` in `s`.
pub fn u32_from_be_at(s: &[u8], at: usize) -> (r: u32)
    requires
        at + 4 <= s@.len(),
    ensures
        r == be32_value(s@.subrange(at as int, at + 4)),
{
    let b0 = s[at];
    let b1 = s[at + 1];
    let b2 = s[at + 2];
    let b3 = s[at + 3];
    proof {
        let sub = s@.subrange(at as int, at + 4);
        assert(sub[0] == b0 && sub[1] == b1 && sub[2] == b2 && sub[3] == b3);
    }
    ((b0 as u32) << 24) | ((b1 as u32) << 16) | ((b2 as u32) << 8) | (b3 as u32)
}

/// Packet size analysis function.
///
/// Announces the size of `bytes` as a 4-byte big-endian length prefix and
/// rejects data above the expected frame bound.
pub fn length(bytes: &[u8]) -> (r: Result<[u8; 4], Exception>)
    ensures
        bytes@.len() <= MAX_FRAME_LEN <==> r is Ok,
        r matches Ok(a) ==> a@ == be32_bytes(bytes@.len() as u32),
        r matches Err(e) ==> e matches Exception::DataTooLarge { size } && size == bytes@.len(),
{
    let n = bytes.len();
    if n > MAX_FRAME_LEN {
        return Err(Exception::DataTooLarge { size: n });
    }
    let x = n as u32;
    let a: [u8; 4] = [
        ((x >> 24) & 0xff) as u8,
        ((x >> 16) & 0xff) as u8,
        ((x >> 8) & 0xff) as u8,
        (x & 0xff) as u8,
    ];
    proof {
        assert(a@ =~= be32_bytes(x));
    }
    Ok(a)
}

// ---------------------------------------------------------------------
// Byte classes and maximal runs, the ground the text parsers stand on.
// ---------------------------------------------------------------------
/// ASCII whitespace, the token separator of a request header.
pub open spec fn is_ws(b: u8) -> bool {
    b == 0x20 || b == 0x09 || b == 0x0a || b == 0x0b || b == 0x0c || b == 0x0d
}

/// A byte that may stand in a header token.
pub open spec fn is_token_byte(b: u8) -> bool {
    !is_ws(b)
}

/// A byte that may stand in an endpoint's host part.
pub open spec fn is_host_byte(b: u8) -> bool {
    b != 0x3a && b != 0x2f
}

/// An ASCII decimal digit.
pub open spec fn is_digit(b: u8) -> bool {
    0x30 <= b <= 0x39
}

/// A byte other than a slash.
pub open spec fn is_slash_free(b: u8) -> bool {
    b != 0x2f
}

pub open spec fn ws_p() -> spec_fn(u8) -> bool {
    |b: u8| is_ws(b)
}

pub open spec fn token_p() -> spec_fn(u8) -> bool {
    |b: u8| is_token_byte(b)
}

pub open spec fn host_p() -> spec_fn(u8) -> bool {
    |b: u8| is_host_byte(b)
}

pub open spec fn digit_p() -> spec_fn(u8) -> bool {
    |b: u8| is_digit(b)
}

pub open spec fn slash_free_p() -> spec_fn(u8) -> bool {
    |b: u8| is_slash_free(b)
}

/// The length of the maximal prefix of `s` whose bytes satisfy `p`.
pub open spec fn span(s: Seq<u8>, p: spec_fn(u8) -> bool) -> int
    decreases s.len(),
{
    if s.len() == 0 || !p(s[0]) {
        0
    } else {
        1 + span(s.skip(1), p)
    }
}

/// `n` marks the end of the maximal prefix of `s` satisfying `p`.
pub open spec fn is_span(s: Seq<u8>, p: spec_fn(u8) -> bool, n: int) -> bool {
    &&& 0 <= n <= s.len()
    &&& forall|i: int| 0 <= i < n ==> p(s[i])
    &&& n == s.len() || !p(s[n])
}

/// The maximal prefix has exactly one end.
pub proof fn lemma_span_unique(s: Seq<u8>, p: spec_fn(u8) -> bool, n: int)
    requires
        is_span(s, p, n),
    ensures
        span(s, p) == n,
    decreases s.len(),
{
    if n == 0 {
    } else {
        assert(p(s[0]));
        let t = s.skip(1);
        assert forall|i: int| 0 <= i < n - 1 implies p(t[i]) by {
            assert(t[i] == s[i + 1]);
        }
        if n - 1 < t.len() {
            assert(t[n - 1] == s[n]);
        }
        lemma_span_unique(t, p, n - 1);
    }
}

/// `span` itself marks the end of the maximal prefix.
pub proof fn lemma_span_is_span(s: Seq<u8>, p: spec_fn(u8) -> bool)
    ensures
        is_span(s, p, span(s, p)),
    decreases s.len(),
{
    if s.len() == 0 || !p(s[0]) {
    } else {
        let t = s.skip(1);
        lemma_span_is_span(t, p);
        let n = span(s, p);
        assert(n == 1 + span(t, p));
        assert forall|i: int| 0 <= i < n implies p(s[i]) by {
            if i > 0 {
                assert(t[i - 1] == s[i]);
            }
        }
        if n < s.len() {
            assert(t[n - 1] == s[n]);
        }
    }
}

// ---------------------------------------------------------------------
// Exact scanners over a window of a byte slice.
// ---------------------------------------------------------------------
fn is_ws_exec(b: u8) -> (r: bool)
    ensures
        r == is_ws(b),
{
    b == 0x20 || b == 0x09 || b == 0x0a || b == 0x0b || b == 0x0c || b == 0x0d
}

/// The end of the whitespace run starting at `from` in `s[from..to]`.
fn scan_ws(s: &[u8], from: usize, to: usize) -> (r: usize)
    requires
        from <= to <= s@.len(),
    ensures
        from <= r <= to,
        is_span(s@.subrange(from as int, to as int), ws_p(), r - from),
{
    let mut i = from;
    while i < to && is_ws_exec(s[i])
        invariant
            from <= i <= to <= s@.len(),
            forall|j: int| from <= j < i ==> is_ws(s@[j]),
        decreases to - i,
    {
        i = i + 1;
    }
    proof {
        let w = s@.subrange(from as int, to as int);
        assert forall|k: int| 0 <= k < i - from implies ws_p()(w[k]) by {
            assert(w[k] == s@[from + k]);
        }
        if i < to {
            assert(w[i - from] == s@[i as int]);
        }
    }
    i
}

/// The end of the token (non-whitespace) run starting at `from`.
fn scan_token(s: &[u8], from: usize, to: usize) -> (r: usize)
    requires
        from <= to <= s@.len(),
    ensures
        from <= r <= to,
        is_span(s@.subrange(from as int, to as int), token_p(), r - from),
{
    let mut i = from;
    while i < to && !is_ws_exec(s[i])
        invariant
            from <= i <= to <= s@.len(),
            forall|j: int| from <= j < i ==> is_token_byte(s@[j]),
        decreases to - i,
    {
        i = i + 1;
    }
    proof {
        let w = s@.subrange(from as int, to as int);
        assert forall|k: int| 0 <= k < i - from implies token_p()(w[k]) by {
            assert(w[k] == s@[from + k]);
        }
        if i < to {
            assert(w[i - from] == s@[i as int]);
        }
    }
    i
}

/// The end of the host-byte run starting at `from`.
fn scan_host(s: &[u8], from: usize, to: usize) -> (r: usize)
    requires
        from <= to <= s@.len(),
    ensures
        from <= r <= to,
        is_span(s@.subrange(from as int, to as int), host_p(), r - from),
{
    let mut i = from;
    while i < to && s[i] != 0x3a && s[i] != 0x2f
        invariant
            from <= i <= to <= s@.len(),
            forall|j: int| from <= j < i ==> is_host_byte(s@[j]),
        decreases to - i,
    {
        i = i + 1;
    }
    proof {
        let w = s@.subrange(from as int, to as int);
        assert forall|k: int| 0 <= k < i - from implies host_p()(w[k]) by {
            assert(w[k] == s@[from + k]);
        }
        if i < to {
            assert(w[i - from] == s@[i as int]);
        }
    }
    i
}

/// The end of the digit run starting at `from`.
fn scan_digits(s: &[u8], from: usize, to: usize) -> (r: usize)
    requires
        from <= to <= s@.len(),
    ensures
        from <= r <= to,
        is_span(s@.subrange(from as int, to as int), digit_p(), r - from),
{
    let mut i = from;
    while i < to && 0x30 <= s[i] && s[i] <= 0x39
        invariant
            from <= i <= to <= s@.len(),
            forall|j: int| from <= j < i ==> is_digit(s@[j]),
        decreases to - i,
    {
        i = i + 1;
    }
    proof {
        let w = s@.subrange(from as int, to as int);
        assert forall|k: int| 0 <= k < i - from implies digit_p()(w[k]) by {
            assert(w[k] == s@[from + k]);
        }
        if i < to {
            assert(w[i - from] == s@[i as int]);
        }
    }
    i
}

/// A parsed request header: `METHOD ENTRANCE PROTOCOL/VERSION`.
pub struct SpecHeader {
    pub method: Seq<u8>,
    pub entrance: Seq<u8>,
    pub protocol: Seq<u8>,
    pub version: Seq<u8>,
}

/// The request-header grammar: exactly three whitespace-separated tokens,
/// the third holding exactly one slash, which splits it into protocol and
/// version. Whitespace may surround the tokens; nothing else may follow.
pub open spec fn parse_header(s: Seq<u8>) -> Option<SpecHeader> {
    let w0 = span(s, ws_p());
    let s1 = s.skip(w0);
    let m = span(s1, token_p());
    if m == 0 {
        None
    } else {
        let method = s1.take(m);
        let s2 = s1.skip(m);
        let w1 = span(s2, ws_p());
        if w1 == 0 {
            None
        } else {
            let s3 = s2.skip(w1);
            let t2 = span(s3, token_p());
            if t2 == 0 {
                None
            } else {
                let entrance = s3.take(t2);
                let s4 = s3.skip(t2);
                let w2 = span(s4, ws_p());
                if w2 == 0 {
                    None
                } else {
                    let s5 = s4.skip(w2);
                    let t3 = span(s5, token_p());
                    if t3 == 0 {
                        None
                    } else {
                        let tok3 = s5.take(t3);
                        let s6 = s5.skip(t3);
                        if span(s6, ws_p()) != s6.len() {
                            None
                        } else {
                            let k = span(tok3, slash_free_p());
                            if k == tok3.len() {
                                None
                            } else if span(tok3.skip(k + 1), slash_free_p()) != tok3.len() - k
                                - 1 {
                                None
                            } else {
                                Some(
                                    SpecHeader {
                                        method,
                                        entrance,
                                        protocol: tok3.take(k),
                                        version: tok3.skip(k + 1),
                                    },
                                )
                            }
                        }
                    }
                }
            }
        }
    }
}

/// The end of the slash-free run starting at `from`.
fn scan_slash_free(s: &[u8], from: usize, to: usize) -> (r: usize)
    requires
        from <= to <= s@.len(),
    ensures
        from <= r <= to,
        is_span(s@.subrange(from as int, to as int), slash_free_p(), r - from),
{
    let mut i = from;
    while i < to && s[i] != 0x2f
        invariant
            from <= i <= to <= s@.len(),
            forall|j: int| from <= j < i ==> is_slash_free(s@[j]),
        decreases to - i,
    {
        i = i + 1;
    }
    proof {
        let w = s@.subrange(from as int, to as int);
        assert forall|k: int| 0 <= k < i - from implies slash_free_p()(w[k]) by {
            assert(w[k] == s@[from + k]);
        }
        if i < to {
            assert(w[i - from] == s@[i as int]);
        }
    }
    i
}

/// Oblivion Request Header Parser.
///
/// Holds the four parts of a request header, and the peer's address once
/// the server attaches it.
pub struct OblivionRequest {
    method: Vec<u8>,
    entrance: Vec<u8>,
    protocol: Vec<u8>,
    version: Vec<u8>,
    remote_addr: Vec<u8>,
    remote_port: u16,
}

impl OblivionRequest {
    pub closed spec fn spec_method(&self) -> Seq<u8> {
        self.method@
    }

    pub closed spec fn spec_entrance(&self) -> Seq<u8> {
        self.entrance@
    }

    pub closed spec fn spec_protocol(&self) -> Seq<u8> {
        self.protocol@
    }

    pub closed spec fn spec_version(&self) -> Seq<u8> {
        self.version@
    }

    pub closed spec fn spec_remote_addr(&self) -> Seq<u8> {
        self.remote_addr@
    }

    pub closed spec fn spec_remote_port(&self) -> u16 {
        self.remote_port
    }

    /// The four header parts, as the grammar names them.
    pub open spec fn as_spec_header(&self) -> SpecHeader {
        SpecHeader {
            method: self.spec_method(),
            entrance: self.spec_entrance(),
            protocol: self.spec_protocol(),
            version: self.spec_version(),
        }
    }

    /// Parse a request header. Succeeds exactly on the grammar
    /// `METHOD ENTRANCE PROTOCOL/VERSION`, and then holds each of the four
    /// parts exactly once, with no trailing state.
    #[verifier::rlimit(100)]
    #[verifier::spinoff_prover]
    pub fn new(header: &[u8]) -> (r: Result<OblivionRequest, Exception>)
        ensures
            r is Ok <==> parse_header(header@) is Some,
            r matches Ok(q) ==> parse_header(header@) == Some(q.as_spec_header())
                && q.spec_remote_addr().len() == 0 && q.spec_remote_port() == 0,
            r matches Err(e) ==> e matches Exception::InvalidHeader,
    {
        let n = header.len();
        let ghost s = header@;
        let a0 = scan_ws(header, 0, n);
        proof {
            assert(s.subrange(0, n as int) =~= s);
            lemma_span_unique(s, ws_p(), a0 as int);
        }
        let ghost s1 = s.skip(a0 as int);
        let a1 = scan_token(header, a0, n);
        proof {
            assert(s.subrange(a0 as int, n as int) =~= s1);
            lemma_span_unique(s1, token_p(), a1 - a0);
        }
        if a1 == a0 {
            return Err(Exception::InvalidHeader);
        }
        let ghost s2 = s1.skip(a1 - a0);
        let b0 = scan_ws(header, a1, n);
        proof {
            assert(s.subrange(a1 as int, n as int) =~= s2);
            lemma_span_unique(s2, ws_p(), b0 - a1);
        }
        if b0 == a1 {
            return Err(Exception::InvalidHeader);
        }
        let ghost s3 = s2.skip(b0 - a1);
        let b1 = scan_token(header, b0, n);
        proof {
            assert(s.subrange(b0 as int, n as int) =~= s3);
            lemma_span_unique(s3, token_p(), b1 - b0);
        }
        if b1 == b0 {
            return Err(Exception::InvalidHeader);
        }
        let ghost s4 = s3.skip(b1 - b0);
        let c0 = scan_ws(header, b1, n);
        proof {
            assert(s.subrange(b1 as int, n as int) =~= s4);
            lemma_span_unique(s4, ws_p(), c0 - b1);
        }
        if c0 == b1 {
            return Err(Exception::InvalidHeader);
        }
        let ghost s5 = s4.skip(c0 - b1);
        let c1 = scan_token(header, c0, n);
        proof {
            assert(s.subrange(c0 as int, n as int) =~= s5);
            lemma_span_unique(s5, token_p(), c1 - c0);
        }
        if c1 == c0 {
            return Err(Exception::InvalidHeader);
        }
        let ghost s6 = s5.skip(c1 - c0);
        let d0 = scan_ws(header, c1, n);
        proof {
            assert(s.subrange(c1 as int, n as int) =~= s6);
            lemma_span_unique(s6, ws_p(), d0 - c1);
        }
        if d0 != n {
            return Err(Exception::InvalidHeader);
        }
        let ghost tok3 = s5.take(c1 - c0);
        let k = scan_slash_free(header, c0, c1);
        proof {
            assert(s.subrange(c0 as int, c1 as int) =~= tok3);
            lemma_span_unique(tok3, slash_free_p(), k - c0);
        }
        if k == c1 {
            return Err(Exception::InvalidHeader);
        }
        let ghost after_slash = tok3.skip(k - c0 + 1);
        let k2 = scan_slash_free(header, k + 1, c1);
        proof {
            assert(s.subrange(k + 1, c1 as int) =~= after_slash);
            lemma_span_unique(after_slash, slash_free_p(), k2 - k - 1);
        }
        if k2 != c1 {
            return Err(Exception::InvalidHeader);
        }
        let q = OblivionRequest {
            method: slice_to_vec(slice_subrange(header, a0, a1)),
            entrance: slice_to_vec(slice_subrange(header, b0, b1)),
            protocol: slice_to_vec(slice_subrange(header, c0, k)),
            version: slice_to_vec(slice_subrange(header, k + 1, c1)),
            remote_addr: Vec::new(),
            remote_port: 0,
        };
        proof {
            assert(q.spec_method() =~= s1.take(a1 - a0));
            assert(q.spec_entrance() =~= s3.take(b1 - b0));
            assert(q.spec_protocol() =~= tok3.take(k - c0));
            assert(q.spec_version() =~= tok3.skip(k - c0 + 1));
        }
        Ok(q)
    }

    /// Attach the remote peer's address and port.
    pub fn set_remote_peer(&mut self, addr: Vec<u8>, port: u16)
        ensures
            final(self).spec_remote_addr() == addr@,
            final(self).spec_remote_port() == port,
            final(self).as_spec_header() == old(self).as_spec_header(),
    {
        self.remote_addr = addr;
        self.remote_port = port;
    }

    pub fn get_method(&self) -> (r: &Vec<u8>)
        ensures
            r@ == self.spec_method(),
    {
        &self.method
    }

    /// The entrance (the routing key) of the request.
    pub fn get_olps(&self) -> (r: &Vec<u8>)
        ensures
            r@ == self.spec_entrance(),
    {
        &self.entrance
    }

    pub fn get_protocol(&self) -> (r: &Vec<u8>)
        ensures
            r@ == self.spec_protocol(),
    {
        &self.protocol
    }

    pub fn get_version(&self) -> (r: &Vec<u8>)
        ensures
            r@ == self.spec_version(),
    {
        &self.version
    }

    pub fn get_ip(&self) -> (r: &Vec<u8>)
        ensures
            r@ == self.spec_remote_addr(),
    {
        &self.remote_addr
    }
}

// ---------------------------------------------------------------------
// Endpoint strings: `[oblivion://]HOST[:PORT][ENTRANCE]`.
// ---------------------------------------------------------------------
/// The bytes of the protocol name `oblivion`.
pub open spec fn protocol_name() -> Seq<u8> {
    seq![0x6fu8, 0x62, 0x6c, 0x69, 0x76, 0x69, 0x6f, 0x6e]
}

/// The bytes of the scheme prefix `oblivion://`.
pub open spec fn scheme_bytes() -> Seq<u8> {
    seq![0x6fu8, 0x62, 0x6c, 0x69, 0x76, 0x69, 0x6f, 0x6e, 0x3a, 0x2f, 0x2f]
}

/// The bytes of the default port `80`.
pub open spec fn default_port() -> Seq<u8> {
    seq![0x38u8, 0x30]
}

/// The bytes of the default entrance `/`.
pub open spec fn default_entrance() -> Seq<u8> {
    seq![0x2fu8]
}

/// A parsed endpoint: host, port digits, and entrance path.
pub struct SpecEndpoint {
    pub host: Seq<u8>,
    pub port: Seq<u8>,
    pub entrance: Seq<u8>,
}

/// The endpoint grammar. An optional `oblivion://` prefix; a nonempty host
/// holding neither `:` nor `/`; an optional `:` with one or more digits;
/// an optional entrance starting with `/`. Port defaults to `80`, entrance
/// to `/`.
pub open spec fn parse_endpoint(s: Seq<u8>) -> Option<SpecEndpoint> {
    let body = if s.len() >= 11 && s.take(11) == scheme_bytes() {
        s.skip(11)
    } else {
        s
    };
    let h = span(body, host_p());
    if h == 0 {
        None
    } else {
        let host = body.take(h);
        let rest = body.skip(h);
        if rest.len() == 0 {
            Some(SpecEndpoint { host, port: default_port(), entrance: default_entrance() })
        } else if rest[0] == 0x3a {
            let d = span(rest.skip(1), digit_p());
            if d == 0 {
                None
            } else {
                let port = rest.skip(1).take(d);
                let after = rest.skip(1 + d);
                if after.len() == 0 {
                    Some(SpecEndpoint { host, port, entrance: default_entrance() })
                } else if after[0] == 0x2f {
                    Some(SpecEndpoint { host, port, entrance: after })
                } else {
                    None
                }
            }
        } else {
            Some(SpecEndpoint { host, port: default_port(), entrance: rest })
        }
    }
}

/// What holds of every parsed endpoint: the host is nonempty without `:`
/// or `/`, the port is one or more digits, the entrance starts with `/`.
pub open spec fn wf_endpoint(e: SpecEndpoint) -> bool {
    &&& e.host.len() > 0
    &&& forall|i: int| 0 <= i < e.host.len() ==> is_host_byte(#[trigger] e.host[i])
    &&& e.port.len() > 0
    &&& forall|i: int| 0 <= i < e.port.len() ==> is_digit(#[trigger] e.port[i])
    &&& e.entrance.len() > 0
    &&& e.entrance[0] == 0x2f
}

/// The canonical text of an endpoint: scheme, host, `:`, port, entrance.
pub open spec fn endpoint_wire(e: SpecEndpoint) -> Seq<u8> {
    scheme_bytes() + e.host + seq![0x3au8] + e.port + e.entrance
}

/// Parsing only ever yields well-formed endpoints.
pub proof fn lemma_parse_endpoint_wf(s: Seq<u8>)
    requires
        parse_endpoint(s) is Some,
    ensures
        wf_endpoint(parse_endpoint(s)->Some_0),
{
    let body = if s.len() >= 11 && s.take(11) == scheme_bytes() {
        s.skip(11)
    } else {
        s
    };
    let h = span(body, host_p());
    lemma_span_is_span(body, host_p());
    let host = body.take(h);
    assert forall|i: int| 0 <= i < host.len() implies is_host_byte(#[trigger] host[i]) by {
        assert(host_p()(body[i]));
    }
    let rest = body.skip(h);
    if rest.len() == 0 {
    } else if rest[0] == 0x3a {
        let d = span(rest.skip(1), digit_p());
        lemma_span_is_span(rest.skip(1), digit_p());
        let port = rest.skip(1).take(d);
        assert forall|i: int| 0 <= i < port.len() implies is_digit(#[trigger] port[i]) by {
            assert(digit_p()(rest.skip(1)[i]));
        }
    } else {
        assert(rest[0] == body[h]);
        assert(!host_p()(body[h]));
    }
}

/// The canonical text of a well-formed endpoint parses back to it.
pub proof fn lemma_wire_reparses(e: SpecEndpoint)
    requires
        wf_endpoint(e),
    ensures
        parse_endpoint(endpoint_wire(e)) == Some(e),
{
    let s = endpoint_wire(e);
    assert(s.len() == 11 + e.host.len() + 1 + e.port.len() + e.entrance.len());
    assert(s.take(11) =~= scheme_bytes());
    let body = s.skip(11);
    assert(body =~= e.host + seq![0x3au8] + e.port + e.entrance);
    let h = e.host.len() as int;
    assert forall|i: int| 0 <= i < h implies host_p()(body[i]) by {
        assert(body[i] == e.host[i]);
    }
    assert(body[h] == 0x3a);
    assert(!host_p()(body[h]));
    lemma_span_unique(body, host_p(), h);
    assert(body.take(h) =~= e.host);
    let rest = body.skip(h);
    assert(rest =~= seq![0x3au8] + e.port + e.entrance);
    assert(rest[0] == 0x3a);
    let tail = rest.skip(1);
    assert(tail =~= e.port + e.entrance);
    let d = e.port.len() as int;
    assert forall|i: int| 0 <= i < d implies digit_p()(tail[i]) by {
        assert(tail[i] == e.port[i]);
    }
    assert(tail[d] == e.entrance[0]);
    assert(!digit_p()(tail[d]));
    lemma_span_unique(tail, digit_p(), d);
    assert(tail.take(d) =~= e.port);
    let after = rest.skip(1 + d);
    assert(after =~= e.entrance);
    assert(after[0] == 0x2f);
}

/// Parsing an endpoint, writing it back out, and parsing again yields the
/// same endpoint: serialization loses nothing the grammar keeps.
pub proof fn lemma_endpoint_round_trip(s: Seq<u8>)
    requires
        parse_endpoint(s) is Some,
    ensures
        parse_endpoint(endpoint_wire(parse_endpoint(s)->Some_0)) == parse_endpoint(s),
{
    lemma_parse_endpoint_wf(s);
    lemma_wire_reparses(parse_endpoint(s)->Some_0);
}

/// Whether the first eleven bytes spell `oblivion://`.
fn scheme_matches(path: &[u8]) -> (r: bool)
    requires
        path@.len() >= 11,
    ensures
        r <==> path@.take(11) == scheme_bytes(),
{
    let scheme: [u8; 11] = [0x6f, 0x62, 0x6c, 0x69, 0x76, 0x69, 0x6f, 0x6e, 0x3a, 0x2f, 0x2f];
    proof {
        assert(scheme@ =~= scheme_bytes());
    }
    let mut j: usize = 0;
    let mut ok = true;
    while j < 11
        invariant
            0 <= j <= 11,
            path@.len() >= 11,
            scheme@ == scheme_bytes(),
            ok <==> (forall|i: int| 0 <= i < j ==> path@[i] == scheme_bytes()[i]),
        decreases 11 - j,
    {
        if path[j] != scheme[j] {
            ok = false;
        }
        j = j + 1;
    }
    proof {
        if ok {
            assert(path@.take(11) =~= scheme_bytes());
        }
        if path@.take(11) == scheme_bytes() {
            assert forall|i: int| 0 <= i < 11 implies path@[i] == scheme_bytes()[i] by {
                assert(path@.take(11)[i] == path@[i]);
            }
        }
    }
    ok
}

/// Oblivion Location Path String Parser.
///
/// The client-facing endpoint: protocol, host, port and entrance.
pub struct OblivionPath {
    protocol: Vec<u8>,
    host: Vec<u8>,
    port: Vec<u8>,
    entrance: Vec<u8>,
}

impl OblivionPath {
    pub closed spec fn spec_protocol(&self) -> Seq<u8> {
        self.protocol@
    }

    pub closed spec fn spec_host(&self) -> Seq<u8> {
        self.host@
    }

    pub closed spec fn spec_port(&self) -> Seq<u8> {
        self.port@
    }

    pub closed spec fn spec_entrance(&self) -> Seq<u8> {
        self.entrance@
    }

    /// The host, port and entrance, as the grammar names them.
    pub open spec fn as_spec_endpoint(&self) -> SpecEndpoint {
        SpecEndpoint {
            host: self.spec_host(),
            port: self.spec_port(),
            entrance: self.spec_entrance(),
        }
    }

    /// Parse an endpoint string. Succeeds exactly on the grammar
    /// `[oblivion://]HOST[:PORT][ENTRANCE]`, with port defaulting to `80`
    /// and entrance to `/`.
    #[verifier::rlimit(100)]
    #[verifier::spinoff_prover]
    pub fn new(path: &[u8]) -> (r: Result<OblivionPath, Exception>)
        ensures
            r is Ok <==> parse_endpoint(path@) is Some,
            r matches Ok(p) ==> parse_endpoint(path@) == Some(p.as_spec_endpoint())
                && p.spec_protocol() == protocol_name(),
            r matches Err(e) ==> e matches Exception::InvalidOblivion,
    {
        let n = path.len();
        let has_scheme = if n >= 11 {
            scheme_matches(path)
        } else {
            false
        };
        let start: usize = if has_scheme {
            11
        } else {
            0
        };
        let ghost body = if has_scheme {
            path@.skip(11)
        } else {
            path@
        };
        let h_end = scan_host(path, start, n);
        proof {
            assert(path@.subrange(start as int, n as int) =~= body);
            lemma_span_unique(body, host_p(), h_end - start);
        }
        if h_end == start {
            return Err(Exception::InvalidOblivion);
        }
        let host = slice_to_vec(slice_subrange(path, start, h_end));
        proof {
            assert(host@ =~= body.take(h_end - start));
        }
        let mut protocol: Vec<u8> = Vec::new();
        protocol.push(0x6f);
        protocol.push(0x62);
        protocol.push(0x6c);
        protocol.push(0x69);
        protocol.push(0x76);
        protocol.push(0x69);
        protocol.push(0x6f);
        protocol.push(0x6e);
        proof {
            assert(protocol@ =~= protocol_name());
        }
        let ghost rest = body.skip(h_end - start);
        if h_end == n {
            let mut port: Vec<u8> = Vec::new();
            port.push(0x38);
            port.push(0x30);
            let mut entrance: Vec<u8> = Vec::new();
            entrance.push(0x2f);
            proof {
                assert(port@ =~= default_port());
                assert(entrance@ =~= default_entrance());
            }
            return Ok(OblivionPath { protocol, host, port, entrance });
        }
        proof {
            assert(rest[0] == path@[h_end as int]);
        }
        if path[h_end] == 0x3a {
            let ghost tail = rest.skip(1);
            let d_end = scan_digits(path, h_end + 1, n);
            proof {
                assert(path@.subrange(h_end + 1, n as int) =~= tail);
                lemma_span_unique(tail, digit_p(), d_end - h_end - 1);
            }
            if d_end == h_end + 1 {
                return Err(Exception::InvalidOblivion);
            }
            let port = slice_to_vec(slice_subrange(path, h_end + 1, d_end));
            proof {
                assert(port@ =~= tail.take(d_end - h_end - 1));
            }
            let ghost after = rest.skip(1 + (d_end - h_end - 1));
            proof {
                assert(after =~= path@.subrange(d_end as int, n as int));
            }
            if d_end == n {
                let mut entrance: Vec<u8> = Vec::new();
                entrance.push(0x2f);
                proof {
                    assert(entrance@ =~= default_entrance());
                }
                return Ok(OblivionPath { protocol, host, port, entrance });
            }
            if path[d_end] == 0x2f {
                let entrance = slice_to_vec(slice_subrange(path, d_end, n));
                proof {
                    assert(entrance@ =~= after);
                }
                return Ok(OblivionPath { protocol, host, port, entrance });
            }
            return Err(Exception::InvalidOblivion);
        }
        let mut port: Vec<u8> = Vec::new();
        port.push(0x38);
        port.push(0x30);
        proof {
            assert(port@ =~= default_port());
        }
        let entrance = slice_to_vec(slice_subrange(path, h_end, n));
        proof {
            assert(entrance@ =~= rest);
        }
        Ok(OblivionPath { protocol, host, port, entrance })
    }

    /// Write the endpoint back out in its canonical form.
    pub fn to_bytes(&self) -> (r: Vec<u8>)
        ensures
            r@ == endpoint_wire(self.as_spec_endpoint()),
    {
        let mut v: Vec<u8> = Vec::new();
        v.push(0x6f);
        v.push(0x62);
        v.push(0x6c);
        v.push(0x69);
        v.push(0x76);
        v.push(0x69);
        v.push(0x6f);
        v.push(0x6e);
        v.push(0x3a);
        v.push(0x2f);
        v.push(0x2f);
        v.extend_from_slice(self.host.as_slice());
        v.push(0x3a);
        v.extend_from_slice(self.port.as_slice());
        v.extend_from_slice(self.entrance.as_slice());
        proof {
            assert(v@ =~= endpoint_wire(self.as_spec_endpoint()));
        }
        v
    }

    pub fn get_protocol(&self) -> (r: &Vec<u8>)
        ensures
            r@ == self.spec_protocol(),
    {
        &self.protocol
    }

    pub fn get_entrance(&self) -> (r: &Vec<u8>)
        ensures
            r@ == self.spec_entrance(),
    {
        &self.entrance
    }

    pub fn get_host(&self) -> (r: &Vec<u8>)
        ensures
            r@ == self.spec_host(),
    {
        &self.host
    }

    pub fn get_port(&self) -> (r: &Vec<u8>)
        ensures
            r@ == self.spec_port(),
    {
        &self.port
    }
}

} // verus!
