//! The messages the module sends back: per-item progress signals, the one
//! terminal reply summarizing every item, and the one terminal exception for
//! a job-level failure.

use vstd::prelude::*;

use crate::ascii::{CH_A, CH_C, CH_COLON, CH_COMMA, CH_D, CH_E, CH_F, CH_G, CH_H, CH_HYPHEN, CH_I,
    CH_K, CH_LBRACE, CH_L, CH_M, CH_N, CH_O, CH_P, CH_QUOTE, CH_RBRACE, CH_R, CH_SPACE, CH_S,
    CH_T, CH_U, CH_W, CH_X};
use crate::bytes::push_all;
use crate::checksum::ChecksumKey;
use crate::errors::ErrorKind;
use crate::jstring::{escape, escape_into};

verus! {

impl ErrorKind {
    /// The tag naming this error kind on the wire.
    pub open spec fn tag_spec(self) -> Seq<u8> {
        match self {
            ErrorKind::Transport => seq![CH_T, CH_R, CH_A, CH_N, CH_S, CH_P, CH_O, CH_R, CH_T],
            ErrorKind::Protocol => seq![CH_P, CH_R, CH_O, CH_T, CH_O, CH_C, CH_O, CH_L],
            ErrorKind::Schema => seq![CH_S, CH_C, CH_H, CH_E, CH_M, CH_A],
            ErrorKind::SecretNotFound => seq![
                CH_S,
                CH_E,
                CH_C,
                CH_R,
                CH_E,
                CH_T,
                CH_HYPHEN,
                CH_N,
                CH_O,
                CH_T,
                CH_HYPHEN,
                CH_F,
                CH_O,
                CH_U,
                CH_N,
                CH_D,
            ],
            ErrorKind::ChecksumMismatch => seq![
                CH_C,
                CH_H,
                CH_E,
                CH_C,
                CH_K,
                CH_S,
                CH_U,
                CH_M,
                CH_HYPHEN,
                CH_M,
                CH_I,
                CH_S,
                CH_M,
                CH_A,
                CH_T,
                CH_C,
                CH_H,
            ],
            ErrorKind::Download => seq![CH_D, CH_O, CH_W, CH_N, CH_L, CH_O, CH_A, CH_D],
            ErrorKind::CacheIo => seq![CH_C, CH_A, CH_C, CH_H, CH_E, CH_HYPHEN, CH_I, CH_O],
        }
    }

    /// The tag as runnable bytes.
    pub fn tag_vec(self) -> (v: Vec<u8>)
        ensures
            v@ == self.tag_spec(),
    {
        let mut v: Vec<u8> = Vec::new();
        match self {
            ErrorKind::Transport => {
                v.push(CH_T);
                v.push(CH_R);
                v.push(CH_A);
                v.push(CH_N);
                v.push(CH_S);
                v.push(CH_P);
                v.push(CH_O);
                v.push(CH_R);
                v.push(CH_T);
            }
            ErrorKind::Protocol => {
                v.push(CH_P);
                v.push(CH_R);
                v.push(CH_O);
                v.push(CH_T);
                v.push(CH_O);
                v.push(CH_C);
                v.push(CH_O);
                v.push(CH_L);
            }
            ErrorKind::Schema => {
                v.push(CH_S);
                v.push(CH_C);
                v.push(CH_H);
                v.push(CH_E);
                v.push(CH_M);
                v.push(CH_A);
            }
            ErrorKind::SecretNotFound => {
                v.push(CH_S);
                v.push(CH_E);
                v.push(CH_C);
                v.push(CH_R);
                v.push(CH_E);
                v.push(CH_T);
                v.push(CH_HYPHEN);
                v.push(CH_N);
                v.push(CH_O);
                v.push(CH_T);
                v.push(CH_HYPHEN);
                v.push(CH_F);
                v.push(CH_O);
                v.push(CH_U);
                v.push(CH_N);
                v.push(CH_D);
            }
            ErrorKind::ChecksumMismatch => {
                v.push(CH_C);
                v.push(CH_H);
                v.push(CH_E);
                v.push(CH_C);
                v.push(CH_K);
                v.push(CH_S);
                v.push(CH_U);
                v.push(CH_M);
                v.push(CH_HYPHEN);
                v.push(CH_M);
                v.push(CH_I);
                v.push(CH_S);
                v.push(CH_M);
                v.push(CH_A);
                v.push(CH_T);
                v.push(CH_C);
                v.push(CH_H);
            }
            ErrorKind::Download => {
                v.push(CH_D);
                v.push(CH_O);
                v.push(CH_W);
                v.push(CH_N);
                v.push(CH_L);
                v.push(CH_O);
                v.push(CH_A);
                v.push(CH_D);
            }
            ErrorKind::CacheIo => {
                v.push(CH_C);
                v.push(CH_A);
                v.push(CH_C);
                v.push(CH_H);
                v.push(CH_E);
                v.push(CH_HYPHEN);
                v.push(CH_I);
                v.push(CH_O);
            }
        }
        proof {
            assert(v@ =~= self.tag_spec());
        }
        v
    }
}

/// What became of one requested item.
#[derive(Debug)]
pub enum ItemOutcome {
    /// The content was already in the cache, at this path.
    Cached { path: Vec<u8> },
    /// The content was downloaded, verified and published, at this path.
    Fetched { path: Vec<u8> },
    /// The item failed with an item-scoped error.
    Failed { kind: ErrorKind },
}

/// The mathematical shape of an outcome.
pub enum OutcomeModel {
    Cached { path: Seq<u8> },
    Fetched { path: Seq<u8> },
    Failed { kind: ErrorKind },
}

impl View for ItemOutcome {
    type V = OutcomeModel;

    open spec fn view(&self) -> OutcomeModel {
        match self {
            ItemOutcome::Cached { path } => OutcomeModel::Cached { path: path@ },
            ItemOutcome::Fetched { path } => OutcomeModel::Fetched { path: path@ },
            ItemOutcome::Failed { kind } => OutcomeModel::Failed { kind: *kind },
        }
    }
}

/// `{"cached": "`, `{"fetched": "` or `{"error": "`.
pub open spec fn outcome_open(o: OutcomeModel) -> Seq<u8> {
    match o {
        OutcomeModel::Cached { .. } => seq![
            CH_LBRACE,
            CH_QUOTE,
            CH_C,
            CH_A,
            CH_C,
            CH_H,
            CH_E,
            CH_D,
            CH_QUOTE,
            CH_COLON,
            CH_SPACE,
            CH_QUOTE,
        ],
        OutcomeModel::Fetched { .. } => seq![
            CH_LBRACE,
            CH_QUOTE,
            CH_F,
            CH_E,
            CH_T,
            CH_C,
            CH_H,
            CH_E,
            CH_D,
            CH_QUOTE,
            CH_COLON,
            CH_SPACE,
            CH_QUOTE,
        ],
        OutcomeModel::Failed { .. } => seq![
            CH_LBRACE,
            CH_QUOTE,
            CH_E,
            CH_R,
            CH_R,
            CH_O,
            CH_R,
            CH_QUOTE,
            CH_COLON,
            CH_SPACE,
            CH_QUOTE,
        ],
    }
}

/// The wire text of one outcome.
pub open spec fn outcome_text(o: OutcomeModel) -> Seq<u8> {
    match o {
        OutcomeModel::Cached { path } => outcome_open(o) + escape(path) + seq![
            CH_QUOTE,
            CH_RBRACE,
        ],
        OutcomeModel::Fetched { path } => outcome_open(o) + escape(path) + seq![
            CH_QUOTE,
            CH_RBRACE,
        ],
        OutcomeModel::Failed { kind } => outcome_open(o) + kind.tag_spec() + seq![
            CH_QUOTE,
            CH_RBRACE,
        ],
    }
}

/// Writes one outcome.
fn push_outcome(out: &mut Vec<u8>, o: &ItemOutcome)
    ensures
        final(out)@ == old(out)@ + outcome_text(o@),
{
    out.push(CH_LBRACE);
    out.push(CH_QUOTE);
    match o {
        ItemOutcome::Cached { path } => {
            out.push(CH_C);
            out.push(CH_A);
            out.push(CH_C);
            out.push(CH_H);
            out.push(CH_E);
            out.push(CH_D);
            out.push(CH_QUOTE);
            out.push(CH_COLON);
            out.push(CH_SPACE);
            out.push(CH_QUOTE);
            escape_into(out, path);
        },
        ItemOutcome::Fetched { path } => {
            out.push(CH_F);
            out.push(CH_E);
            out.push(CH_T);
            out.push(CH_C);
            out.push(CH_H);
            out.push(CH_E);
            out.push(CH_D);
            out.push(CH_QUOTE);
            out.push(CH_COLON);
            out.push(CH_SPACE);
            out.push(CH_QUOTE);
            escape_into(out, path);
        },
        ItemOutcome::Failed { kind } => {
            out.push(CH_E);
            out.push(CH_R);
            out.push(CH_R);
            out.push(CH_O);
            out.push(CH_R);
            out.push(CH_QUOTE);
            out.push(CH_COLON);
            out.push(CH_SPACE);
            out.push(CH_QUOTE);
            let t = kind.tag_vec();
            push_all(out, &t);
        },
    }
    out.push(CH_QUOTE);
    out.push(CH_RBRACE);
    proof {
        assert(final(out)@ =~= old(out)@ + outcome_text(o@));
    }
}

/// One item's line in the terminal reply: its checksum key and its outcome.
#[derive(Debug)]
pub struct ReplyEntry {
    pub key: ChecksumKey,
    pub outcome: ItemOutcome,
}

/// The mathematical shape of a reply entry.
pub struct ReplyEntryModel {
    pub key: Seq<u8>,
    pub outcome: OutcomeModel,
}

impl View for ReplyEntry {
    type V = ReplyEntryModel;

    open spec fn view(&self) -> ReplyEntryModel {
        ReplyEntryModel { key: self.key.text(), outcome: self.outcome@ }
    }
}

/// The terminal success message: one outcome for every requested key.
#[derive(Debug)]
pub struct Reply {
    pub outcomes: Vec<ReplyEntry>,
}

/// A progress message: one item's key and its outcome, sent as the item
/// completes.
#[derive(Debug)]
pub struct Signal {
    pub key: ChecksumKey,
    pub outcome: ItemOutcome,
}

/// The terminal failure message: a job-level error kind and a readable text.
#[derive(Debug)]
pub struct Exception {
    pub kind: ErrorKind,
    pub message: Vec<u8>,
}

/// The wire text of one reply entry, `"key": outcome`.
pub open spec fn rentry_text(e: ReplyEntryModel) -> Seq<u8> {
    seq![CH_QUOTE] + e.key + seq![CH_QUOTE, CH_COLON, CH_SPACE] + outcome_text(e.outcome)
}

/// The wire text of the reply body, entries joined by `, `.
pub open spec fn rentries_text(es: Seq<ReplyEntryModel>) -> Seq<u8>
    decreases es.len(),
{
    if es.len() == 0 {
        Seq::empty()
    } else if es.len() == 1 {
        rentry_text(es[0])
    } else {
        rentry_text(es[0]) + seq![CH_COMMA, CH_SPACE] + rentries_text(es.skip(1))
    }
}

/// The model of a reply's entries.
pub open spec fn reply_model(r: Reply) -> Seq<ReplyEntryModel> {
    Seq::new(r.outcomes@.len(), |i: int| r.outcomes@[i]@)
}

/// The wire text of a whole reply.
pub open spec fn reply_text(r: Reply) -> Seq<u8> {
    seq![CH_LBRACE] + rentries_text(reply_model(r)) + seq![CH_RBRACE]
}

/// The wire text of a signal: an object with the one item's entry.
pub open spec fn signal_text(sg: Signal) -> Seq<u8> {
    seq![CH_LBRACE] + rentry_text(ReplyEntryModel { key: sg.key.text(), outcome: sg.outcome@ })
        + seq![CH_RBRACE]
}

/// `{"kind": "` — the opening of an exception.
pub open spec fn exc_open() -> Seq<u8> {
    seq![CH_LBRACE, CH_QUOTE, CH_K, CH_I, CH_N, CH_D, CH_QUOTE, CH_COLON, CH_SPACE, CH_QUOTE]
}

/// `", "message": "` — between the kind and the message.
pub open spec fn exc_mid() -> Seq<u8> {
    seq![
        CH_QUOTE,
        CH_COMMA,
        CH_SPACE,
        CH_QUOTE,
        CH_M,
        CH_E,
        CH_S,
        CH_S,
        CH_A,
        CH_G,
        CH_E,
        CH_QUOTE,
        CH_COLON,
        CH_SPACE,
        CH_QUOTE,
    ]
}

/// The wire text of an exception.
pub open spec fn exception_text(e: Exception) -> Seq<u8> {
    exc_open() + e.kind.tag_spec() + exc_mid() + escape(e.message@) + seq![CH_QUOTE, CH_RBRACE]
}

/// Writes one reply entry.
fn push_rentry(out: &mut Vec<u8>, key: &ChecksumKey, o: &ItemOutcome)
    ensures
        final(out)@ == old(out)@ + rentry_text(
            ReplyEntryModel { key: key.text(), outcome: o@ },
        ),
{
    out.push(CH_QUOTE);
    let kt = key.text_vec();
    push_all(out, &kt);
    out.push(CH_QUOTE);
    out.push(CH_COLON);
    out.push(CH_SPACE);
    push_outcome(out, o);
    proof {
        assert(final(out)@ =~= old(out)@ + rentry_text(
            ReplyEntryModel { key: key.text(), outcome: o@ },
        ));
    }
}

/// Appending one entry extends the reply body by `, ` and the new entry.
proof fn lemma_rentries_text_push(es: Seq<ReplyEntryModel>, e: ReplyEntryModel)
    ensures
        rentries_text(es.push(e)) == if es.len() == 0 {
            rentry_text(e)
        } else {
            rentries_text(es) + seq![CH_COMMA, CH_SPACE] + rentry_text(e)
        },
    decreases es.len(),
{
    let p = es.push(e);
    if es.len() == 0 {
        assert(p[0] == e);
        assert(rentries_text(p) == rentry_text(e));
    } else {
        lemma_rentries_text_push(es.skip(1), e);
        assert(p.skip(1) =~= es.skip(1).push(e));
        assert(p[0] == es[0]);
        if es.len() == 1 {
            assert(rentries_text(p) == rentry_text(p[0]) + seq![CH_COMMA, CH_SPACE]
                + rentries_text(p.skip(1)));
            assert(rentries_text(p) =~= rentries_text(es) + seq![CH_COMMA, CH_SPACE]
                + rentry_text(e));
        } else {
            assert(rentries_text(p) == rentry_text(p[0]) + seq![CH_COMMA, CH_SPACE]
                + rentries_text(p.skip(1)));
            assert(rentries_text(es) == rentry_text(es[0]) + seq![CH_COMMA, CH_SPACE]
                + rentries_text(es.skip(1)));
            assert(rentries_text(p) =~= rentries_text(es) + seq![CH_COMMA, CH_SPACE]
                + rentry_text(e));
        }
    }
}

/// Encodes the terminal reply to its wire text.
pub fn encode_reply(r: &Reply) -> (v: Vec<u8>)
    ensures
        v@ == reply_text(*r),
{
    let mut v: Vec<u8> = Vec::new();
    v.push(CH_LBRACE);
    let mut i: usize = 0;
    while i < r.outcomes.len()
        invariant
            i <= r.outcomes@.len(),
            v@ == seq![CH_LBRACE] + rentries_text(reply_model(*r).take(i as int)),
        decreases r.outcomes@.len() - i,
    {
        if i > 0 {
            v.push(CH_COMMA);
            v.push(CH_SPACE);
        }
        push_rentry(&mut v, &r.outcomes[i].key, &r.outcomes[i].outcome);
        proof {
            let pre = reply_model(*r).take(i as int);
            let cur = reply_model(*r).take(i + 1);
            assert(cur =~= pre.push(r.outcomes@[i as int]@));
            lemma_rentries_text_push(pre, r.outcomes@[i as int]@);
            assert(v@ =~= seq![CH_LBRACE] + rentries_text(cur));
        }
        i = i + 1;
    }
    v.push(CH_RBRACE);
    proof {
        assert(reply_model(*r).take(r.outcomes@.len() as int) =~= reply_model(*r));
        assert(v@ =~= reply_text(*r));
    }
    v
}

/// Encodes a progress signal to its wire text.
pub fn encode_signal(sg: &Signal) -> (v: Vec<u8>)
    ensures
        v@ == signal_text(*sg),
{
    let mut v: Vec<u8> = Vec::new();
    v.push(CH_LBRACE);
    push_rentry(&mut v, &sg.key, &sg.outcome);
    v.push(CH_RBRACE);
    proof {
        assert(v@ =~= signal_text(*sg));
    }
    v
}

/// Encodes the terminal exception to its wire text.
pub fn encode_exception(e: &Exception) -> (v: Vec<u8>)
    ensures
        v@ == exception_text(*e),
{
    let mut v: Vec<u8> = Vec::new();
    v.push(CH_LBRACE);
    v.push(CH_QUOTE);
    v.push(CH_K);
    v.push(CH_I);
    v.push(CH_N);
    v.push(CH_D);
    v.push(CH_QUOTE);
    v.push(CH_COLON);
    v.push(CH_SPACE);
    v.push(CH_QUOTE);
    let t = e.kind.tag_vec();
    push_all(&mut v, &t);
    v.push(CH_QUOTE);
    v.push(CH_COMMA);
    v.push(CH_SPACE);
    v.push(CH_QUOTE);
    v.push(CH_M);
    v.push(CH_E);
    v.push(CH_S);
    v.push(CH_S);
    v.push(CH_A);
    v.push(CH_G);
    v.push(CH_E);
    v.push(CH_QUOTE);
    v.push(CH_COLON);
    v.push(CH_SPACE);
    v.push(CH_QUOTE);
    escape_into(&mut v, &e.message);
    v.push(CH_QUOTE);
    v.push(CH_RBRACE);
    proof {
        assert(v@ =~= exception_text(*e));
    }
    v
}

} // verus!
