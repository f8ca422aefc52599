//! The envelope: every datagram on the wire is one JSON object
//! `{"type": "<kind>", "data": "<payload text>"}`.  The kind tag says how the
//! payload is to be decoded; an unknown tag is an error, never ignored.

use vstd::prelude::*;

use crate::ascii::{CH_A, CH_COLON, CH_COMMA, CH_C, CH_D, CH_E, CH_G, CH_H, CH_I, CH_L, CH_LBRACE,
    CH_N, CH_O, CH_P, CH_QUOTE, CH_RBRACE, CH_SPACE, CH_T, CH_UP_E, CH_UP_M, CH_UP_R, CH_UP_S,
    CH_X, CH_Y};
use crate::bytes::{has_prefix_at, push_all};
use crate::errors::ErrorKind;
use crate::jstring::{escape, escape_into, lemma_unesc_of_escape, lemma_unesc_sound,
    unescape_scan};

verus! {

/// The four kinds of message an envelope can carry.
#[derive(Clone, Copy, PartialEq, Eq, Structural, Debug)]
pub enum MessageKind {
    Method,
    Reply,
    Signal,
    Exception,
}

impl MessageKind {
    /// The tag naming this kind inside the envelope.
    pub open spec fn tag_spec(self) -> Seq<u8> {
        match self {
            MessageKind::Method => seq![CH_UP_M, CH_E, CH_T, CH_H, CH_O, CH_D],
            MessageKind::Reply => seq![CH_UP_R, CH_E, CH_P, CH_L, CH_Y],
            MessageKind::Signal => seq![CH_UP_S, CH_I, CH_G, CH_N, CH_A, CH_L],
            MessageKind::Exception => seq![
                CH_UP_E,
                CH_X,
                CH_C,
                CH_E,
                CH_P,
                CH_T,
                CH_I,
                CH_O,
                CH_N,
            ],
        }
    }

    /// The tag as runnable bytes.
    pub fn tag_vec(self) -> (v: Vec<u8>)
        ensures
            v@ == self.tag_spec(),
    {
        let mut v: Vec<u8> = Vec::new();
        match self {
            MessageKind::Method => {
                v.push(CH_UP_M);
                v.push(CH_E);
                v.push(CH_T);
                v.push(CH_H);
                v.push(CH_O);
                v.push(CH_D);
            }
            MessageKind::Reply => {
                v.push(CH_UP_R);
                v.push(CH_E);
                v.push(CH_P);
                v.push(CH_L);
                v.push(CH_Y);
            }
            MessageKind::Signal => {
                v.push(CH_UP_S);
                v.push(CH_I);
                v.push(CH_G);
                v.push(CH_N);
                v.push(CH_A);
                v.push(CH_L);
            }
            MessageKind::Exception => {
                v.push(CH_UP_E);
                v.push(CH_X);
                v.push(CH_C);
                v.push(CH_E);
                v.push(CH_P);
                v.push(CH_T);
                v.push(CH_I);
                v.push(CH_O);
                v.push(CH_N);
            }
        }
        proof {
            assert(v@ =~= self.tag_spec());
        }
        v
    }
}

/// The opening of the envelope object up to the kind tag.
pub open spec fn lit_open() -> Seq<u8> {
    seq![
        CH_LBRACE,
        CH_QUOTE,
        CH_T,
        CH_Y,
        CH_P,
        CH_E,
        CH_QUOTE,
        CH_COLON,
        CH_SPACE,
        CH_QUOTE,
    ]
}

/// The middle of the envelope object between the kind tag and the payload.
pub open spec fn lit_mid() -> Seq<u8> {
    seq![
        CH_QUOTE,
        CH_COMMA,
        CH_SPACE,
        CH_QUOTE,
        CH_D,
        CH_A,
        CH_T,
        CH_A,
        CH_QUOTE,
        CH_COLON,
        CH_SPACE,
        CH_QUOTE,
    ]
}

/// Everything of the envelope text before the escaped payload.
pub open spec fn env_prefix(k: MessageKind) -> Seq<u8> {
    lit_open() + k.tag_spec() + lit_mid()
}

/// The whole envelope text for kind `k` carrying payload `d`.
pub open spec fn env_text(k: MessageKind, d: Seq<u8>) -> Seq<u8> {
    env_prefix(k) + escape(d) + seq![CH_QUOTE, CH_RBRACE]
}

/// The self-describing wrapper put on the wire: a message kind plus the
/// payload bytes the kind's own codec produced.
#[derive(Debug)]
pub struct Envelope {
    pub kind: MessageKind,
    pub data: Vec<u8>,
}

impl Envelope {
    pub fn new(kind: MessageKind, data: Vec<u8>) -> (e: Envelope)
        ensures
            e.kind == kind,
            e.data == data,
    {
        Envelope { kind, data }
    }

    /// The wire text of this envelope.
    pub open spec fn text(self) -> Seq<u8> {
        env_text(self.kind, self.data@)
    }
}

/// The prefix of the envelope text for `k` as runnable bytes.
fn env_prefix_vec(k: MessageKind) -> (v: Vec<u8>)
    ensures
        v@ == env_prefix(k),
{
    let mut v: Vec<u8> = Vec::new();
    v.push(CH_LBRACE);
    v.push(CH_QUOTE);
    v.push(CH_T);
    v.push(CH_Y);
    v.push(CH_P);
    v.push(CH_E);
    v.push(CH_QUOTE);
    v.push(CH_COLON);
    v.push(CH_SPACE);
    v.push(CH_QUOTE);
    let tag = k.tag_vec();
    push_all(&mut v, &tag);
    v.push(CH_QUOTE);
    v.push(CH_COMMA);
    v.push(CH_SPACE);
    v.push(CH_QUOTE);
    v.push(CH_D);
    v.push(CH_A);
    v.push(CH_T);
    v.push(CH_A);
    v.push(CH_QUOTE);
    v.push(CH_COLON);
    v.push(CH_SPACE);
    v.push(CH_QUOTE);
    proof {
        assert(v@ =~= env_prefix(k));
    }
    v
}

/// Encodes an envelope to its wire text.
pub fn encode_envelope(e: &Envelope) -> (v: Vec<u8>)
    ensures
        v@ == e.text(),
{
    let mut v = env_prefix_vec(e.kind);
    escape_into(&mut v, &e.data);
    v.push(CH_QUOTE);
    v.push(CH_RBRACE);
    proof {
        assert(v@ =~= e.text());
    }
    v
}

/// The first tag character distinguishes the four kinds, at one fixed place
/// in the envelope text.
proof fn lemma_env_prefix_head(k: MessageKind, d: Seq<u8>)
    ensures
        env_text(k, d).len() > 10,
        env_text(k, d)[10] == k.tag_spec()[0],
{
    assert(env_prefix(k)[10] == k.tag_spec()[0]);
    assert(env_text(k, d)[10] == env_prefix(k)[10]);
}

/// Decoding one kind's form of an envelope.
fn try_kind(s: &[u8], k: MessageKind) -> (r: Option<Envelope>)
    ensures
        match r {
            Some(e) => e.kind == k && s@ == env_text(k, e.data@),
            None => forall|d: Seq<u8>| s@ != env_text(k, d),
        },
{
    let p = env_prefix_vec(k);
    if !has_prefix_at(s, 0, &p) {
        proof {
            assert forall|d: Seq<u8>| s@ != env_text(k, d) by {
                if s@ == env_text(k, d) {
                    assert(s@.subrange(0, p@.len() as int) =~= p@);
                }
            }
        }
        return None;
    }
    let pl = p.len();
    proof {
        assert(pl <= s@.len());
    }
    match unescape_scan(s, pl) {
        None => {
            proof {
                assert forall|d: Seq<u8>| s@ != env_text(k, d) by {
                    if s@ == env_text(k, d) {
                        lemma_env_text_scan(s@, k, d);
                    }
                }
            }
            None
        },
        Some((data, next)) => {
            if next < s.len() && s.len() - next == 1 && s[next] == CH_RBRACE {
                proof {
                    lemma_unesc_sound(s@, pl as nat);
                    assert(s@.subrange(pl as int, next as int) == escape(data@) + seq![
                        CH_QUOTE,
                    ]);
                    assert(s@ =~= s@.subrange(0, pl as int) + s@.subrange(
                        pl as int,
                        next as int,
                    ) + seq![s@[next as int]]);
                    assert(env_text(k, data@) =~= env_prefix(k) + (escape(data@) + seq![
                        CH_QUOTE,
                    ]) + seq![CH_RBRACE]);
                    assert(s@ =~= env_text(k, data@));
                }
                Some(Envelope { kind: k, data })
            } else {
                proof {
                    assert forall|d: Seq<u8>| s@ != env_text(k, d) by {
                        if s@ == env_text(k, d) {
                            lemma_env_text_scan(s@, k, d);
                        }
                    }
                }
                None
            }
        },
    }
}

/// On a well-formed envelope text, the payload scan succeeds and stops just
/// before the closing brace.
proof fn lemma_env_text_scan(s: Seq<u8>, k: MessageKind, d: Seq<u8>)
    requires
        s == env_text(k, d),
    ensures
        crate::jstring::unesc_at(s, env_prefix(k).len()) == Some(
            (d, (s.len() - 1) as nat),
        ),
        s.len() - 1 == env_prefix(k).len() + escape(d).len() + 1,
        s[s.len() - 1] == CH_RBRACE,
{
    let pl = env_prefix(k).len();
    let m = escape(d).len();
    assert(s.len() == pl + m + 2);
    assert(s.skip((pl + m + 1) as int) =~= seq![CH_RBRACE]);
    assert(s.skip(pl as int) =~= escape(d) + seq![CH_QUOTE] + s.skip((pl + m + 1) as int));
    lemma_unesc_of_escape(s, pl as nat, d);
    assert(s[s.len() - 1] == CH_RBRACE);
}

/// Two equal envelope texts carry the same kind and the same payload: with
/// the codec contracts this says that decoding an encoded envelope gives the
/// kind and payload back unchanged, for every message kind.
pub proof fn lemma_env_text_injective(k1: MessageKind, d1: Seq<u8>, k2: MessageKind, d2: Seq<u8>)
    requires
        env_text(k1, d1) == env_text(k2, d2),
    ensures
        k1 == k2,
        d1 == d2,
{
    lemma_env_prefix_head(k1, d1);
    lemma_env_prefix_head(k2, d2);
    assert(k1.tag_spec()[0] == k2.tag_spec()[0]);
    assert(k1 == k2) by {
        match k1 {
            MessageKind::Method => {},
            MessageKind::Reply => {},
            MessageKind::Signal => {},
            MessageKind::Exception => {},
        }
        match k2 {
            MessageKind::Method => {},
            MessageKind::Reply => {},
            MessageKind::Signal => {},
            MessageKind::Exception => {},
        }
    }
    let s = env_text(k1, d1);
    lemma_env_text_scan(s, k1, d1);
    lemma_env_text_scan(s, k2, d2);
}

/// Decodes the wire text of an envelope.  Exactly the texts the encoder can
/// produce are accepted: anything else, an unknown kind tag included, is a
/// protocol error.
pub fn decode_envelope(s: &[u8]) -> (r: Result<Envelope, ErrorKind>)
    ensures
        match r {
            Ok(e) => s@ == env_text(e.kind, e.data@),
            Err(k) => k == ErrorKind::Protocol && forall|mk: MessageKind, d: Seq<u8>|
                s@ != env_text(mk, d),
        },
{
    if let Some(e) = try_kind(s, MessageKind::Method) {
        return Ok(e);
    }
    if let Some(e) = try_kind(s, MessageKind::Reply) {
        return Ok(e);
    }
    if let Some(e) = try_kind(s, MessageKind::Signal) {
        return Ok(e);
    }
    if let Some(e) = try_kind(s, MessageKind::Exception) {
        return Ok(e);
    }
    proof {
        assert forall|mk: MessageKind, d: Seq<u8>| s@ != env_text(mk, d) by {
            match mk {
                MessageKind::Method => {},
                MessageKind::Reply => {},
                MessageKind::Signal => {},
                MessageKind::Exception => {},
            }
        }
    }
    Err(ErrorKind::Protocol)
}

} // verus!
