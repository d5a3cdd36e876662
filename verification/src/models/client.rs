//! What a client observes: one received message, and the header line that
//! opens a connection.
use crate::models::router::{strip_trailing_slashes, trim_end, windows_eq};
use crate::utils::parser::{
    is_ws, lemma_span_unique, parse_header, slash_free_p, token_p, ws_p, SpecHeader,
};
use vstd::prelude::*;
use vstd::utf8::encode_utf8;

verus! {

/// One message received over a session: its payload and its status flag,
/// and, when known, the request header and entrance it answers.
#[derive(Debug)]
pub struct Response {
    pub header: Option<String>,
    pub content: Vec<u8>,
    pub entrance: Option<String>,
    pub flag: u32,
}

/// Equality of optional strings by their UTF-8 bytes.
pub open spec fn opt_string_eq(a: &Option<String>, b: &Option<String>) -> bool {
    match (a, b) {
        (Option::None, Option::None) => true,
        (Option::Some(x), Option::Some(y)) => encode_utf8(x@) == encode_utf8(y@),
        _ => false,
    }
}

/// When two responses count as the same: equal header, payload and flag,
/// and the same entrance once trailing slashes are dropped. A response
/// without an entrance equals only one without.
pub open spec fn response_eq(a: &Response, b: &Response) -> bool {
    &&& opt_string_eq(&a.header, &b.header)
    &&& a.content@ == b.content@
    &&& a.flag == b.flag
    &&& match (&a.entrance, &b.entrance) {
        (Option::None, Option::None) => true,
        (Option::Some(x), Option::Some(y)) => strip_trailing_slashes(encode_utf8(x@))
            == strip_trailing_slashes(encode_utf8(y@)),
        _ => false,
    }
}

impl Response {
    pub fn new(header: Option<String>, content: Vec<u8>, entrance: Option<String>, flag: u32) -> (r:
        Self)
        ensures
            r.header == header,
            r.content == content,
            r.entrance == entrance,
            r.flag == flag,
    {
        Self { header, content, entrance, flag }
    }
}

impl PartialEq for Response {
    fn eq(&self, other: &Self) -> (r: bool) {
        let header_eq = match (&self.header, &other.header) {
            (Option::None, Option::None) => true,
            (Option::Some(x), Option::Some(y)) => {
                let xb = x.as_str().as_bytes();
                let yb = y.as_str().as_bytes();
                let he = windows_eq(xb, xb.len(), yb, yb.len());
                proof {
                    assert(xb@.take(xb@.len() as int) =~= xb@);
                    assert(yb@.take(yb@.len() as int) =~= yb@);
                }
                he
            },
            _ => false,
        };
        let content_eq = windows_eq(
            self.content.as_slice(),
            self.content.len(),
            other.content.as_slice(),
            other.content.len(),
        );
        proof {
            assert(self.content@.take(self.content@.len() as int) =~= self.content@);
            assert(other.content@.take(other.content@.len() as int) =~= other.content@);
        }
        let flag_eq = self.flag == other.flag;
        match (&self.entrance, &other.entrance) {
            (Option::None, Option::None) => header_eq && content_eq && flag_eq,
            (Option::Some(x), Option::Some(y)) => {
                let xb = x.as_str().as_bytes();
                let yb = y.as_str().as_bytes();
                proof {
                    assert(xb@ == encode_utf8(x@));
                    assert(yb@ == encode_utf8(y@));
                }
                let xe = trim_end(xb);
                let ye = trim_end(yb);
                let entrance_eq = windows_eq(xb, xe, yb, ye);
                proof {
                    assert(entrance_eq <==> strip_trailing_slashes(encode_utf8(x@))
                        == strip_trailing_slashes(encode_utf8(y@)));
                }
                header_eq && content_eq && entrance_eq && flag_eq
            },
            _ => false,
        }
    }
}

impl vstd::std_specs::cmp::PartialEqSpecImpl for Response {
    open spec fn obeys_eq_spec() -> bool {
        true
    }

    open spec fn eq_spec(&self, other: &Response) -> bool {
        response_eq(self, other)
    }
}

/// The bytes of `CONNECT ` (with its trailing space).
pub open spec fn connect_prefix() -> Seq<u8> {
    seq![0x43u8, 0x4f, 0x4e, 0x4e, 0x45, 0x43, 0x54, 0x20]
}

/// The bytes of ` Oblivion/2.0` (with its leading space).
pub open spec fn oblivion_suffix() -> Seq<u8> {
    seq![0x20u8, 0x4f, 0x62, 0x6c, 0x69, 0x76, 0x69, 0x6f, 0x6e, 0x2f, 0x32, 0x2e, 0x30]
}

/// The header line a client opens with for an entrance.
pub open spec fn connect_header_bytes(entrance: Seq<u8>) -> Seq<u8> {
    connect_prefix() + entrance + oblivion_suffix()
}

/// Write the header line `CONNECT <entrance> Oblivion/2.0`.
pub fn build_connect_header(entrance: &[u8]) -> (r: Vec<u8>)
    ensures
        r@ == connect_header_bytes(entrance@),
{
    let mut v: Vec<u8> = Vec::new();
    v.push(0x43);
    v.push(0x4f);
    v.push(0x4e);
    v.push(0x4e);
    v.push(0x45);
    v.push(0x43);
    v.push(0x54);
    v.push(0x20);
    v.extend_from_slice(entrance);
    v.push(0x20);
    v.push(0x4f);
    v.push(0x62);
    v.push(0x6c);
    v.push(0x69);
    v.push(0x76);
    v.push(0x69);
    v.push(0x6f);
    v.push(0x6e);
    v.push(0x2f);
    v.push(0x32);
    v.push(0x2e);
    v.push(0x30);
    proof {
        assert(v@ =~= connect_header_bytes(entrance@));
    }
    v
}

/// The header line a client builds for a whitespace-free entrance always
/// parses, on the responder's side, into the method `CONNECT`, the same
/// entrance, the protocol `Oblivion` and the version `2.0`.
pub proof fn lemma_connect_header_parses(entrance: Seq<u8>)
    requires
        entrance.len() > 0,
        forall|i: int| 0 <= i < entrance.len() ==> !is_ws(#[trigger] entrance[i]),
    ensures
        parse_header(connect_header_bytes(entrance)) == Some(
            SpecHeader {
                method: seq![0x43u8, 0x4f, 0x4e, 0x4e, 0x45, 0x43, 0x54],
                entrance,
                protocol: seq![0x4fu8, 0x62, 0x6c, 0x69, 0x76, 0x69, 0x6f, 0x6e],
                version: seq![0x32u8, 0x2e, 0x30],
            },
        ),
{
    let s = connect_header_bytes(entrance);
    let e = entrance.len() as int;
    assert(s.len() == 8 + e + 13);
    // No leading whitespace: the first byte is `C`.
    assert(!ws_p()(s[0]));
    lemma_span_unique(s, ws_p(), 0);
    assert(s.skip(0) =~= s);
    // The method token `CONNECT` runs to the first space.
    assert forall|i: int| 0 <= i < 7 implies token_p()(s[i]) by {
        assert(i == 0 || i == 1 || i == 2 || i == 3 || i == 4 || i == 5 || i == 6);
    }
    assert(s[7] == 0x20);
    lemma_span_unique(s, token_p(), 7);
    assert(s.take(7) =~= seq![0x43u8, 0x4f, 0x4e, 0x4e, 0x45, 0x43, 0x54]);
    // One space separates it from the entrance.
    let s2 = s.skip(7);
    assert(s2[0] == 0x20);
    assert(s2[1] == entrance[0]);
    assert(!ws_p()(s2[1]));
    lemma_span_unique(s2, ws_p(), 1);
    // The entrance token runs to the next space.
    let s3 = s2.skip(1);
    assert(s3 =~= entrance + oblivion_suffix());
    assert forall|i: int| 0 <= i < e implies token_p()(s3[i]) by {
        assert(s3[i] == entrance[i]);
    }
    assert(s3[e] == 0x20);
    lemma_span_unique(s3, token_p(), e);
    assert(s3.take(e) =~= entrance);
    // One space separates it from the third token.
    let s4 = s3.skip(e);
    assert(s4 =~= oblivion_suffix());
    assert(s4[0] == 0x20);
    assert(s4[1] == 0x4f);
    lemma_span_unique(s4, ws_p(), 1);
    // The third token `Oblivion/2.0` runs to the end.
    let s5 = s4.skip(1);
    assert(s5 =~= seq![0x4fu8, 0x62, 0x6c, 0x69, 0x76, 0x69, 0x6f, 0x6e, 0x2f, 0x32, 0x2e, 0x30]);
    assert forall|i: int| 0 <= i < 12 implies token_p()(s5[i]) by {
        assert(i == 0 || i == 1 || i == 2 || i == 3 || i == 4 || i == 5 || i == 6 || i == 7 || i
            == 8 || i == 9 || i == 10 || i == 11);
    }
    lemma_span_unique(s5, token_p(), 12);
    let tok3 = s5.take(12);
    assert(tok3 =~= s5);
    let s6 = s5.skip(12);
    assert(s6.len() == 0);
    lemma_span_unique(s6, ws_p(), 0);
    // Exactly one slash splits protocol from version.
    assert forall|i: int| 0 <= i < 8 implies slash_free_p()(tok3[i]) by {
        assert(i == 0 || i == 1 || i == 2 || i == 3 || i == 4 || i == 5 || i == 6 || i == 7);
    }
    assert(tok3[8] == 0x2f);
    lemma_span_unique(tok3, slash_free_p(), 8);
    let after = tok3.skip(9);
    assert(after =~= seq![0x32u8, 0x2e, 0x30]);
    assert forall|i: int| 0 <= i < 3 implies slash_free_p()(after[i]) by {
        assert(i == 0 || i == 1 || i == 2);
    }
    lemma_span_unique(after, slash_free_p(), 3);
    assert(tok3.take(8) =~= seq![0x4fu8, 0x62, 0x6c, 0x69, 0x76, 0x69, 0x6f, 0x6e]);
}

} // verus!
