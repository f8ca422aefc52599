//! The fetch job request: a map from checksum keys to item descriptors,
//! carried under exactly one of the members `items` or `urls`.  The schema is
//! enforced here: a known algorithm tag with a digest of the right length for
//! every key, no duplicate keys, one section and nothing else.

use vstd::prelude::*;

use crate::ascii::{CH_A, CH_COLON, CH_COMMA, CH_C, CH_E, CH_I, CH_LBRACE, CH_L, CH_M, CH_N,
    CH_QUOTE, CH_RBRACE, CH_R, CH_SPACE, CH_S, CH_T, CH_U};
use crate::bytes::{has_prefix_at, push_all};
use crate::checksum::{parse_checksum_key, ChecksumKey};
use crate::jstring::{escape, escape_into, lemma_unesc_sound, unesc_at, unescape_scan};

verus! {

/// Which member of the request object carries the item map.
#[derive(Clone, Copy, PartialEq, Eq, Structural, Debug)]
pub enum SectionName {
    Items,
    Urls,
}

/// One requested item: the checksum key addressing the content, the URL to
/// fetch it from, and optionally the name of a secret to present.
#[derive(Debug)]
pub struct FetchItem {
    pub key: ChecksumKey,
    pub url: Vec<u8>,
    pub secret: Option<Vec<u8>>,
}

/// The mathematical shape of one item.
pub struct ItemModel {
    pub key: Seq<u8>,
    pub url: Seq<u8>,
    pub secret: Option<Seq<u8>>,
}

impl View for FetchItem {
    type V = ItemModel;

    open spec fn view(&self) -> ItemModel {
        ItemModel {
            key: self.key.text(),
            url: self.url@,
            secret: match self.secret {
                Some(v) => Some(v@),
                None => None,
            },
        }
    }
}

/// Whether `s` is the text of some well-formed checksum key.
pub open spec fn is_valid_key(s: Seq<u8>) -> bool {
    exists|k: ChecksumKey| k.wf() && k.text() == s
}

/// The job request.
#[derive(Debug)]
pub struct Method {
    pub section: SectionName,
    pub items: Vec<FetchItem>,
}

/// The mathematical shape of a request.
pub struct MethodModel {
    pub section: SectionName,
    pub items: Seq<ItemModel>,
}

impl View for Method {
    type V = MethodModel;

    open spec fn view(&self) -> MethodModel {
        MethodModel { section: self.section, items: Seq::new(self.items@.len(), |i: int| self.items@[i]@) }
    }
}

/// Whether a sequence of items carries a key equal to `key`.
pub open spec fn has_key(items: Seq<ItemModel>, key: Seq<u8>) -> bool {
    exists|j: int| 0 <= j < items.len() && items[j].key == key
}

/// Schema well-formedness of a request model: every key is a valid checksum
/// key and no two items share a key.
pub open spec fn model_wf(m: MethodModel) -> bool {
    &&& forall|i: int| 0 <= i < m.items.len() ==> is_valid_key(#[trigger] m.items[i].key)
    &&& forall|i: int, j: int|
        0 <= i < j < m.items.len() ==> m.items[i].key != m.items[j].key
}

impl Method {
    /// Schema well-formedness, stated over the model.
    pub open spec fn wf(self) -> bool {
        model_wf(self@)
    }
}

/// `{"items": {` or `{"urls": {` — the opening of the request object.
pub open spec fn sec_open(sec: SectionName) -> Seq<u8> {
    match sec {
        SectionName::Items => seq![
            CH_LBRACE,
            CH_QUOTE,
            CH_I,
            CH_T,
            CH_E,
            CH_M,
            CH_S,
            CH_QUOTE,
            CH_COLON,
            CH_SPACE,
            CH_LBRACE,
        ],
        SectionName::Urls => seq![
            CH_LBRACE,
            CH_QUOTE,
            CH_U,
            CH_R,
            CH_L,
            CH_S,
            CH_QUOTE,
            CH_COLON,
            CH_SPACE,
            CH_LBRACE,
        ],
    }
}

/// `{"url": "` — the opening of the descriptor object form.
pub open spec fn obj_url_open() -> Seq<u8> {
    seq![CH_LBRACE, CH_QUOTE, CH_U, CH_R, CH_L, CH_QUOTE, CH_COLON, CH_SPACE, CH_QUOTE]
}

/// `", "secrets": {"name": "` — between the URL and the secret name,
/// closing the URL string first.
pub open spec fn obj_secret_mid() -> Seq<u8> {
    seq![CH_QUOTE] + obj_secret_mid_tail()
}

/// The part of `obj_secret_mid` after the URL's closing quote.
pub open spec fn obj_secret_mid_tail() -> Seq<u8> {
    seq![
        CH_COMMA,
        CH_SPACE,
        CH_QUOTE,
        CH_S,
        CH_E,
        CH_C,
        CH_R,
        CH_E,
        CH_T,
        CH_S,
        CH_QUOTE,
        CH_COLON,
        CH_SPACE,
        CH_LBRACE,
        CH_QUOTE,
        CH_N,
        CH_A,
        CH_M,
        CH_E,
        CH_QUOTE,
        CH_COLON,
        CH_SPACE,
        CH_QUOTE,
    ]
}

/// The canonical text of one item's descriptor value.
pub open spec fn value_text(it: ItemModel) -> Seq<u8> {
    match it.secret {
        None => seq![CH_QUOTE] + escape(it.url) + seq![CH_QUOTE],
        Some(name) => obj_url_open() + escape(it.url) + obj_secret_mid() + escape(name) + seq![
            CH_QUOTE,
            CH_RBRACE,
            CH_RBRACE,
        ],
    }
}

/// The canonical text of one map entry, `"key": value`.
pub open spec fn entry_text(it: ItemModel) -> Seq<u8> {
    seq![CH_QUOTE] + it.key + seq![CH_QUOTE, CH_COLON, CH_SPACE] + value_text(it)
}

/// The canonical text of the whole item map body, entries joined by `, `.
pub open spec fn entries_text(items: Seq<ItemModel>) -> Seq<u8>
    decreases items.len(),
{
    if items.len() == 0 {
        Seq::empty()
    } else if items.len() == 1 {
        entry_text(items[0])
    } else {
        entry_text(items[0]) + seq![CH_COMMA, CH_SPACE] + entries_text(items.skip(1))
    }
}

/// The canonical wire text of a whole request.
pub open spec fn method_text(m: MethodModel) -> Seq<u8> {
    sec_open(m.section) + entries_text(m.items) + seq![CH_RBRACE, CH_RBRACE]
}

/// Appending one item extends the map body by `, ` and the new entry.
proof fn lemma_entries_text_push(items: Seq<ItemModel>, it: ItemModel)
    ensures
        entries_text(items.push(it)) == if items.len() == 0 {
            entry_text(it)
        } else {
            entries_text(items) + seq![CH_COMMA, CH_SPACE] + entry_text(it)
        },
    decreases items.len(),
{
    let p = items.push(it);
    if items.len() == 0 {
        assert(p.len() == 1);
        assert(p[0] == it);
        assert(entries_text(p) == entry_text(it));
    } else {
        lemma_entries_text_push(items.skip(1), it);
        assert(p.skip(1) =~= items.skip(1).push(it));
        assert(p[0] == items[0]);
        if items.len() == 1 {
            assert(items.skip(1).len() == 0);
            assert(entries_text(p) == entry_text(p[0]) + seq![CH_COMMA, CH_SPACE]
                + entries_text(p.skip(1)));
            assert(entries_text(items) == entry_text(items[0]));
            assert(entries_text(p) =~= entries_text(items) + seq![CH_COMMA, CH_SPACE]
                + entry_text(it));
        } else {
            assert(entries_text(p) == entry_text(p[0]) + seq![CH_COMMA, CH_SPACE]
                + entries_text(p.skip(1)));
            assert(entries_text(items) == entry_text(items[0]) + seq![CH_COMMA, CH_SPACE]
                + entries_text(items.skip(1)));
            assert(entries_text(p) =~= entries_text(items) + seq![CH_COMMA, CH_SPACE]
                + entry_text(it));
        }
    }
}

/// Whether `p` occurs in `s` at position `i`.
pub open spec fn starts_at(s: Seq<u8>, i: nat, p: Seq<u8>) -> bool {
    i + p.len() <= s.len() && s.subrange(i as int, (i + p.len()) as int) == p
}

/// The result of reading one descriptor value.
pub enum ValueParse {
    Found(Seq<u8>, Option<Seq<u8>>, nat),
    Bad,
}

/// Reads one descriptor value at `i`: either a quoted URL or the object form
/// with a secret name.
pub open spec fn parse_value_at(s: Seq<u8>, i: nat) -> ValueParse {
    if i < s.len() && s[i as int] == CH_QUOTE {
        match unesc_at(s, i + 1) {
            None => ValueParse::Bad,
            Some((url, j)) => ValueParse::Found(url, None, j),
        }
    } else if starts_at(s, i, obj_url_open()) {
        match unesc_at(s, i + obj_url_open().len()) {
            None => ValueParse::Bad,
            Some((url, j)) => if starts_at(s, j, obj_secret_mid_tail()) {
                match unesc_at(s, j + obj_secret_mid_tail().len()) {
                    None => ValueParse::Bad,
                    Some((name, j2)) => if j2 + 2 <= s.len() && s[j2 as int] == CH_RBRACE && s[(j2
                        + 1) as int] == CH_RBRACE {
                        ValueParse::Found(url, Some(name), j2 + 2)
                    } else {
                        ValueParse::Bad
                    },
                }
            } else {
                ValueParse::Bad
            },
        }
    } else {
        ValueParse::Bad
    }
}

/// The result of reading one map entry.
pub enum EntryParse {
    Found(ItemModel, nat),
    BadKey,
    Bad,
}

/// Reads one map entry, `"key": value`, at `i`.
pub open spec fn parse_entry_at(s: Seq<u8>, i: nat) -> EntryParse {
    if i < s.len() && s[i as int] == CH_QUOTE {
        match unesc_at(s, i + 1) {
            None => EntryParse::Bad,
            Some((kb, j)) => if !is_valid_key(kb) {
                EntryParse::BadKey
            } else if j + 2 <= s.len() && s[j as int] == CH_COLON && s[(j + 1) as int]
                == CH_SPACE {
                match parse_value_at(s, j + 2) {
                    ValueParse::Bad => EntryParse::Bad,
                    ValueParse::Found(url, secret, j3) => EntryParse::Found(
                        ItemModel { key: kb, url, secret },
                        j3,
                    ),
                }
            } else {
                EntryParse::Bad
            },
        }
    } else {
        EntryParse::Bad
    }
}

/// The result of reading the item map and the closing of the request.
pub enum EntriesParse {
    Done(Seq<ItemModel>),
    BadKey,
    DupKey,
    Extra,
    Bad,
}

/// Reads map entries from `i` to the end of the request text, accumulating
/// into `acc`.  The map must close with `}}` ending the text; a further
/// member after the map is the `Extra` schema violation.
pub open spec fn parse_entries_at(s: Seq<u8>, i: nat, acc: Seq<ItemModel>) -> EntriesParse
    decreases s.len() - i,
{
    if i >= s.len() {
        EntriesParse::Bad
    } else if s[i as int] == CH_RBRACE {
        if i + 2 == s.len() && s[(i + 1) as int] == CH_RBRACE {
            EntriesParse::Done(acc)
        } else if i + 3 < s.len() && s[(i + 1) as int] == CH_COMMA && s[(i + 2) as int]
            == CH_SPACE && s[(i + 3) as int] == CH_QUOTE {
            EntriesParse::Extra
        } else {
            EntriesParse::Bad
        }
    } else {
        match parse_entry_at(s, i) {
            EntryParse::Bad => EntriesParse::Bad,
            EntryParse::BadKey => EntriesParse::BadKey,
            EntryParse::Found(it, j) => if has_key(acc, it.key) {
                EntriesParse::DupKey
            } else {
                let j2 = if j > i && j <= s.len() {
                    j
                } else {
                    i + 1
                };
                if j2 + 2 <= s.len() && s[j2 as int] == CH_COMMA && s[(j2 + 1) as int]
                    == CH_SPACE {
                    parse_entries_at(s, j2 + 2, acc.push(it))
                } else if j2 < s.len() && s[j2 as int] == CH_RBRACE {
                    parse_entries_at(s, j2, acc.push(it))
                } else {
                    EntriesParse::Bad
                }
            },
        }
    }
}

/// The result of reading a whole request.
pub enum MethodParse {
    Parsed(MethodModel),
    Missing,
    Extra,
    BadKey,
    DupKey,
    Bad,
}

/// Folds the map result into the request result.
pub open spec fn finish_section(r: EntriesParse, sec: SectionName) -> MethodParse {
    match r {
        EntriesParse::Done(items) => MethodParse::Parsed(MethodModel { section: sec, items }),
        EntriesParse::BadKey => MethodParse::BadKey,
        EntriesParse::DupKey => MethodParse::DupKey,
        EntriesParse::Extra => MethodParse::Extra,
        EntriesParse::Bad => MethodParse::Bad,
    }
}

/// Reads a whole request: an empty object misses its section; otherwise
/// exactly one of the two section openings, then the item map.
pub open spec fn parse_method(s: Seq<u8>) -> MethodParse {
    if s == seq![CH_LBRACE, CH_RBRACE] {
        MethodParse::Missing
    } else if starts_at(s, 0, sec_open(SectionName::Items)) {
        finish_section(
            parse_entries_at(s, sec_open(SectionName::Items).len(), Seq::empty()),
            SectionName::Items,
        )
    } else if starts_at(s, 0, sec_open(SectionName::Urls)) {
        finish_section(
            parse_entries_at(s, sec_open(SectionName::Urls).len(), Seq::empty()),
            SectionName::Urls,
        )
    } else {
        MethodParse::Bad
    }
}

/// The opening of the request object as runnable bytes.
fn sec_open_vec(sec: SectionName) -> (v: Vec<u8>)
    ensures
        v@ == sec_open(sec),
{
    let mut v: Vec<u8> = Vec::new();
    v.push(CH_LBRACE);
    v.push(CH_QUOTE);
    match sec {
        SectionName::Items => {
            v.push(CH_I);
            v.push(CH_T);
            v.push(CH_E);
            v.push(CH_M);
            v.push(CH_S);
        }
        SectionName::Urls => {
            v.push(CH_U);
            v.push(CH_R);
            v.push(CH_L);
            v.push(CH_S);
        }
    }
    v.push(CH_QUOTE);
    v.push(CH_COLON);
    v.push(CH_SPACE);
    v.push(CH_LBRACE);
    proof {
        assert(v@ =~= sec_open(sec));
    }
    v
}

/// The object-form opening as runnable bytes.
fn obj_url_open_vec() -> (v: Vec<u8>)
    ensures
        v@ == obj_url_open(),
{
    let mut v: Vec<u8> = Vec::new();
    v.push(CH_LBRACE);
    v.push(CH_QUOTE);
    v.push(CH_U);
    v.push(CH_R);
    v.push(CH_L);
    v.push(CH_QUOTE);
    v.push(CH_COLON);
    v.push(CH_SPACE);
    v.push(CH_QUOTE);
    proof {
        assert(v@ =~= obj_url_open());
    }
    v
}

/// The middle of the object form, after the URL's closing quote, as
/// runnable bytes.
fn obj_secret_mid_tail_vec() -> (v: Vec<u8>)
    ensures
        v@ == obj_secret_mid_tail(),
{
    let mut v: Vec<u8> = Vec::new();
    v.push(CH_COMMA);
    v.push(CH_SPACE);
    v.push(CH_QUOTE);
    v.push(CH_S);
    v.push(CH_E);
    v.push(CH_C);
    v.push(CH_R);
    v.push(CH_E);
    v.push(CH_T);
    v.push(CH_S);
    v.push(CH_QUOTE);
    v.push(CH_COLON);
    v.push(CH_SPACE);
    v.push(CH_LBRACE);
    v.push(CH_QUOTE);
    v.push(CH_N);
    v.push(CH_A);
    v.push(CH_M);
    v.push(CH_E);
    v.push(CH_QUOTE);
    v.push(CH_COLON);
    v.push(CH_SPACE);
    v.push(CH_QUOTE);
    proof {
        assert(v@ =~= obj_secret_mid_tail());
    }
    v
}

/// Writes one entry, `"key": value`.
fn push_entry(out: &mut Vec<u8>, it: &FetchItem)
    ensures
        final(out)@ == old(out)@ + entry_text(it@),
{
    out.push(CH_QUOTE);
    let kt = it.key.text_vec();
    push_all(out, &kt);
    out.push(CH_QUOTE);
    out.push(CH_COLON);
    out.push(CH_SPACE);
    match &it.secret {
        None => {
            out.push(CH_QUOTE);
            escape_into(out, &it.url);
            out.push(CH_QUOTE);
        },
        Some(name) => {
            let o = obj_url_open_vec();
            push_all(out, &o);
            escape_into(out, &it.url);
            out.push(CH_QUOTE);
            let m = obj_secret_mid_tail_vec();
            push_all(out, &m);
            escape_into(out, name);
            out.push(CH_QUOTE);
            out.push(CH_RBRACE);
            out.push(CH_RBRACE);
        },
    }
    proof {
        assert(final(out)@ =~= old(out)@ + entry_text(it@));
    }
}

/// The model of a sequence of parsed items.
pub open spec fn items_model(items: Seq<FetchItem>) -> Seq<ItemModel> {
    Seq::new(items.len(), |i: int| items[i]@)
}

/// The model of an optional byte string.
pub open spec fn opt_model(o: Option<Vec<u8>>) -> Option<Seq<u8>> {
    match o {
        Some(v) => Some(v@),
        None => None,
    }
}

/// The ways a request text is refused.
#[derive(Clone, Copy, PartialEq, Eq, Structural, Debug)]
pub enum MethodError {
    /// Not the canonical request shape at all.
    Malformed,
    /// The empty object: neither `items` nor `urls` is present.
    MissingSection,
    /// A second member after the item map, `urls` beside `items` included.
    ExtraMember,
    /// A key that is not a well-formed checksum key.
    BadKey,
    /// Two entries under one checksum key.
    DuplicateKey,
}

/// Which parse each refusal stands for.
pub open spec fn err_model(e: MethodError) -> MethodParse {
    match e {
        MethodError::Malformed => MethodParse::Bad,
        MethodError::MissingSection => MethodParse::Missing,
        MethodError::ExtraMember => MethodParse::Extra,
        MethodError::BadKey => MethodParse::BadKey,
        MethodError::DuplicateKey => MethodParse::DupKey,
    }
}

/// Reads one descriptor value, as the value specification says.
fn parse_value_exec(s: &[u8], i: usize) -> (r: Option<(Vec<u8>, Option<Vec<u8>>, usize)>)
    requires
        i <= s@.len(),
    ensures
        match r {
            Some(t) => parse_value_at(s@, i as nat) == ValueParse::Found(
                t.0@,
                opt_model(t.1),
                t.2 as nat,
            ) && i < t.2 <= s@.len(),
            None => parse_value_at(s@, i as nat) == ValueParse::Bad,
        },
{
    if i < s.len() && s[i] == CH_QUOTE {
        match unescape_scan(s, i + 1) {
            None => None,
            Some((url, j)) => {
                proof {
                    lemma_unesc_sound(s@, (i + 1) as nat);
                }
                Some((url, None, j))
            },
        }
    } else {
        let o = obj_url_open_vec();
        if has_prefix_at(s, i, &o) {
            proof {
                assert(starts_at(s@, i as nat, obj_url_open()));
            }
            match unescape_scan(s, i + o.len()) {
                None => None,
                Some((url, j)) => {
                    proof {
                        lemma_unesc_sound(s@, (i + o@.len()) as nat);
                    }
                    let m = obj_secret_mid_tail_vec();
                    if has_prefix_at(s, j, &m) {
                        proof {
                            assert(starts_at(s@, j as nat, obj_secret_mid_tail()));
                        }
                        match unescape_scan(s, j + m.len()) {
                            None => None,
                            Some((name, j2)) => {
                                proof {
                                    lemma_unesc_sound(s@, (j + m@.len()) as nat);
                                }
                                if s.len() - j2 >= 2 && s[j2] == CH_RBRACE && s[j2 + 1]
                                    == CH_RBRACE {
                                    Some((url, Some(name), j2 + 2))
                                } else {
                                    None
                                }
                            },
                        }
                    } else {
                        None
                    }
                },
            }
        } else {
            None
        }
    }
}

/// Reads one map entry, as the entry specification says.
fn parse_entry_exec(s: &[u8], i: usize) -> (r: Result<(FetchItem, usize), MethodError>)
    requires
        i <= s@.len(),
    ensures
        match r {
            Ok(t) => parse_entry_at(s@, i as nat) == EntryParse::Found(t.0@, t.1 as nat)
                && t.0.key.wf() && i < t.1 <= s@.len(),
            Err(e) => (e == MethodError::BadKey && parse_entry_at(s@, i as nat)
                == EntryParse::BadKey) || (e == MethodError::Malformed && parse_entry_at(
                s@,
                i as nat,
            ) == EntryParse::Bad),
        },
{
    if i >= s.len() {
        return Err(MethodError::Malformed);
    }
    if s[i] != CH_QUOTE {
        return Err(MethodError::Malformed);
    }
    match unescape_scan(s, i + 1) {
        None => Err(MethodError::Malformed),
        Some((kb, j)) => {
            proof {
                lemma_unesc_sound(s@, (i + 1) as nat);
            }
            match parse_checksum_key(kb.as_slice()) {
                None => {
                    proof {
                        assert(!is_valid_key(kb@));
                    }
                    Err(MethodError::BadKey)
                },
                Some(k) => {
                    proof {
                        assert(is_valid_key(kb@));
                    }
                    if s.len() - j >= 2 && s[j] == CH_COLON && s[j + 1] == CH_SPACE {
                        match parse_value_exec(s, j + 2) {
                            None => Err(MethodError::Malformed),
                            Some((url, secret, j3)) => {
                                let it = FetchItem { key: k, url, secret };
                                proof {
                                    assert(it@ =~= ItemModel {
                                        key: kb@,
                                        url: it.url@,
                                        secret: opt_model(it.secret),
                                    });
                                }
                                Ok((it, j3))
                            },
                        }
                    } else {
                        Err(MethodError::Malformed)
                    }
                },
            }
        },
    }
}

/// Reads the item map of one section and builds the request.
fn decode_section(s: &[u8], sec: SectionName) -> (r: Result<Method, MethodError>)
    requires
        starts_at(s@, 0, sec_open(sec)),
    ensures
        match r {
            Ok(m) => m.wf() && m@.section == sec && finish_section(
                parse_entries_at(s@, sec_open(sec).len(), Seq::empty()),
                sec,
            ) == MethodParse::Parsed(m@),
            Err(e) => e != MethodError::MissingSection && finish_section(
                parse_entries_at(s@, sec_open(sec).len(), Seq::empty()),
                sec,
            ) == err_model(e),
        },
{
    let op = sec_open_vec(sec);
    let l0: usize = op.len();
    proof {
        assert(l0 <= s@.len());
    }
    let mut i: usize = l0;
    let mut acc: Vec<FetchItem> = Vec::new();
    proof {
        assert(items_model(acc@) =~= Seq::<ItemModel>::empty());
    }
    loop
        invariant
            l0 == sec_open(sec).len(),
            l0 <= i <= s@.len(),
            forall|x: int| 0 <= x < acc@.len() ==> (#[trigger] acc@[x]).key.wf(),
            forall|x: int, y: int|
                0 <= x < y < acc@.len() ==> acc@[x].key.text() != acc@[y].key.text(),
            parse_entries_at(s@, l0 as nat, Seq::empty()) == parse_entries_at(
                s@,
                i as nat,
                items_model(acc@),
            ),
        decreases s@.len() - i,
    {
        if i >= s.len() {
            return Err(MethodError::Malformed);
        }
        if s[i] == CH_RBRACE {
            if s.len() - i == 2 && s[i + 1] == CH_RBRACE {
                let m = Method { section: sec, items: acc };
                proof {
                    assert(parse_entries_at(s@, i as nat, items_model(m.items@))
                        == EntriesParse::Done(items_model(m.items@)));
                    assert(m@.items =~= items_model(m.items@));
                    assert forall|x: int| 0 <= x < m@.items.len() implies is_valid_key(
                        #[trigger] m@.items[x].key,
                    ) by {
                        assert(m.items@[x].key.wf());
                        assert(m.items@[x].key.text() == m@.items[x].key);
                    }
                }
                return Ok(m);
            } else if s.len() - i >= 4 && s[i + 1] == CH_COMMA && s[i + 2] == CH_SPACE && s[i
                + 3] == CH_QUOTE {
                return Err(MethodError::ExtraMember);
            } else {
                return Err(MethodError::Malformed);
            }
        }
        match parse_entry_exec(s, i) {
            Err(e) => {
                return Err(e);
            },
            Ok((it, j)) => {
                let ghost accm = items_model(acc@);
                let mut dup = false;
                let mut d: usize = 0;
                while d < acc.len()
                    invariant
                        d <= acc@.len(),
                        it.key.wf(),
                        forall|x: int| 0 <= x < acc@.len() ==> (#[trigger] acc@[x]).key.wf(),
                        dup == exists|x: int|
                            0 <= x < d && (#[trigger] acc@[x]).key.text() == it.key.text(),
                    decreases acc@.len() - d,
                {
                    if acc[d].key.same(&it.key) {
                        dup = true;
                    } else {
                        proof {
                            if acc@[d as int].key.text() == it.key.text() {
                                crate::checksum::lemma_key_text_injective(
                                    acc@[d as int].key,
                                    it.key,
                                );
                            }
                        }
                    }
                    d = d + 1;
                }
                proof {
                    assert(dup == has_key(accm, it@.key)) by {
                        if dup {
                            let x = choose|x: int|
                                0 <= x < acc@.len() && (#[trigger] acc@[x]).key.text()
                                    == it.key.text();
                            assert(accm[x].key == it@.key);
                        }
                        if has_key(accm, it@.key) {
                            let x = choose|x: int|
                                0 <= x < accm.len() && accm[x].key == it@.key;
                            assert(acc@[x].key.text() == it.key.text());
                        }
                    }
                }
                if dup {
                    return Err(MethodError::DuplicateKey);
                }
                let ghost iold = i as nat;
                if s.len() - j >= 2 && s[j] == CH_COMMA && s[j + 1] == CH_SPACE {
                    acc.push(it);
                    i = j + 2;
                } else if j < s.len() && s[j] == CH_RBRACE {
                    acc.push(it);
                    i = j;
                } else {
                    return Err(MethodError::Malformed);
                }
                proof {
                    assert(items_model(acc@) =~= accm.push(acc@[acc@.len() - 1]@));
                    assert(parse_entries_at(s@, iold, accm) == parse_entries_at(
                        s@,
                        i as nat,
                        items_model(acc@),
                    ));
                }
            },
        }
    }
}

/// Decodes the wire text of a request.  The result is exactly what the
/// request parsing specification says of the text: the request on the
/// canonical texts, and the matching refusal on every other text.
pub fn decode_method(s: &[u8]) -> (r: Result<Method, MethodError>)
    ensures
        match r {
            Ok(m) => m.wf() && parse_method(s@) == MethodParse::Parsed(m@),
            Err(e) => parse_method(s@) == err_model(e),
        },
{
    if s.len() == 2 && s[0] == CH_LBRACE && s[1] == CH_RBRACE {
        proof {
            assert(s@ =~= seq![CH_LBRACE, CH_RBRACE]);
        }
        return Err(MethodError::MissingSection);
    }
    proof {
        assert(s@ != seq![CH_LBRACE, CH_RBRACE]) by {
            if s@ == seq![CH_LBRACE, CH_RBRACE] {
                assert(s@.len() == 2);
                assert(s@[0] == CH_LBRACE);
                assert(s@[1] == CH_RBRACE);
            }
        }
    }
    let oi = sec_open_vec(SectionName::Items);
    if has_prefix_at(s, 0, &oi) {
        proof {
            assert(starts_at(s@, 0, sec_open(SectionName::Items)));
        }
        return decode_section(s, SectionName::Items);
    }
    let ou = sec_open_vec(SectionName::Urls);
    if has_prefix_at(s, 0, &ou) {
        proof {
            assert(starts_at(s@, 0, sec_open(SectionName::Urls)));
            assert(!starts_at(s@, 0, sec_open(SectionName::Items)));
        }
        return decode_section(s, SectionName::Urls);
    }
    proof {
        assert(!starts_at(s@, 0, sec_open(SectionName::Items)));
        assert(!starts_at(s@, 0, sec_open(SectionName::Urls)));
    }
    Err(MethodError::Malformed)
}

/// A known prefix of the remainder at `i`, byte for byte.
proof fn lemma_skip_expose(s: Seq<u8>, i: nat, x: Seq<u8>)
    requires
        i + x.len() <= s.len(),
        s.skip(i as int) == x + s.skip((i + x.len()) as int),
    ensures
        forall|k: int| 0 <= k < x.len() ==> s[i + k] == #[trigger] x[k],
{
    assert forall|k: int| 0 <= k < x.len() implies s[i + k] == #[trigger] x[k] by {
        assert(s.skip(i as int)[k] == s[i + k]);
        assert((x + s.skip((i + x.len()) as int))[k] == x[k]);
    }
}

/// Bytes known one by one make a known prefix of the remainder at `i`.
proof fn lemma_skip_make(s: Seq<u8>, i: nat, x: Seq<u8>)
    requires
        i + x.len() <= s.len(),
        forall|k: int| 0 <= k < x.len() ==> s[i + k] == #[trigger] x[k],
    ensures
        s.skip(i as int) == x + s.skip((i + x.len()) as int),
{
    assert(s.skip(i as int) =~= x + s.skip((i + x.len()) as int)) by {
        assert forall|k: int| 0 <= k < s.len() - i implies s.skip(i as int)[k] == (x + s.skip(
            (i + x.len()) as int,
        ))[k] by {
            assert(s.skip(i as int)[k] == s[i + k]);
            if k >= x.len() {
                assert(s.skip((i + x.len()) as int)[k - x.len()] == s[i + k]);
            } else {
                assert(x[k] == s[i + k]);
            }
        }
    }
}

/// On the canonical text of one descriptor value, the value parse finds
/// exactly the URL and the secret and stops at the value's end.
#[verifier::rlimit(100)]
#[verifier::spinoff_prover]
proof fn lemma_parse_value_of_text(s: Seq<u8>, i: nat, it: ItemModel)
    requires
        i + value_text(it).len() <= s.len(),
        s.skip(i as int) == value_text(it) + s.skip((i + value_text(it).len()) as int),
    ensures
        parse_value_at(s, i) == ValueParse::Found(
            it.url,
            it.secret,
            (i + value_text(it).len()) as nat,
        ),
{
    let v = value_text(it);
    let vl = v.len();
    lemma_skip_expose(s, i, v);
    match it.secret {
        None => {
            let m = escape(it.url).len();
            assert(v =~= seq![CH_QUOTE] + (escape(it.url) + seq![CH_QUOTE]));
            assert(s[i as int] == v[0]);
            assert(v[0] == CH_QUOTE);
            assert forall|k: int| 0 <= k < m + 1 implies s[i + 1 + k] == #[trigger] (escape(
                it.url,
            ) + seq![CH_QUOTE])[k] by {
                assert(v[1 + k] == (escape(it.url) + seq![CH_QUOTE])[k]);
                assert(s[i + (1 + k)] == v[1 + k]);
            }
            lemma_skip_make((s), (i + 1) as nat, escape(it.url) + seq![CH_QUOTE]);
            assert(s.skip((i + 1) as int) =~= escape(it.url) + seq![CH_QUOTE] + s.skip(
                (i + 1 + m + 1) as int,
            ));
            crate::jstring::lemma_unesc_of_escape(s, (i + 1) as nat, it.url);
            assert(unesc_at(s, i + 1) == Some((it.url, (i + 1 + m + 1) as nat)));
            assert(vl == m + 2);
        },
        Some(name) => {
            let mu = escape(it.url).len();
            let mn = escape(name).len();
            let ol = obj_url_open().len() as int;
            let tl = obj_secret_mid_tail().len() as int;
            // The value decomposes around the two escaped strings.
            assert(v =~= obj_url_open() + (escape(it.url) + (obj_secret_mid() + (escape(name)
                + seq![CH_QUOTE, CH_RBRACE, CH_RBRACE]))));
            // The object opening.
            assert forall|k: int| 0 <= k < ol implies s[i + k] == #[trigger] obj_url_open()[k] by {
                assert(v[k] == obj_url_open()[k]);
            }
            lemma_skip_make(s, i, obj_url_open());
            assert(s.subrange(i as int, i + ol) =~= obj_url_open()) by {
                assert forall|k: int| 0 <= k < ol implies s.subrange(i as int, i + ol)[k]
                    == obj_url_open()[k] by {
                    assert(s[i + k] == obj_url_open()[k]);
                }
            }
            assert(starts_at(s, i, obj_url_open()));
            assert(s[i as int] == CH_LBRACE);
            // The URL string with its closing quote.
            let iu = i + ol;
            assert forall|k: int| 0 <= k < mu + 1 implies s[iu + k] == #[trigger] (escape(it.url)
                + seq![CH_QUOTE])[k] by {
                assert(v[ol + k] == (escape(it.url) + seq![CH_QUOTE])[k]);
                assert(s[i + (ol + k)] == v[ol + k]);
            }
            lemma_skip_make(s, (iu) as nat, escape(it.url) + seq![CH_QUOTE]);
            assert(s.skip(iu as int) =~= escape(it.url) + seq![CH_QUOTE] + s.skip(
                (iu + mu + 1) as int,
            ));
            crate::jstring::lemma_unesc_of_escape(s, iu as nat, it.url);
            let ju = iu + mu + 1;
            assert(unesc_at(s, i + obj_url_open().len()) == Some((it.url, ju as nat)));
            // The middle literal after the URL's quote.
            assert forall|k: int|
                0 <= k < tl implies s[ju + k] == #[trigger] obj_secret_mid_tail()[k] by {
                assert(v[ol + mu + 1 + k] == obj_secret_mid_tail()[k]) by {
                    assert(obj_secret_mid() =~= seq![CH_QUOTE] + obj_secret_mid_tail());
                }
                assert(s[i + (ol + mu + 1 + k)] == v[ol + mu + 1 + k]);
            }
            lemma_skip_make(s, ju as nat, obj_secret_mid_tail());
            assert(s.subrange(ju as int, ju + tl) =~= obj_secret_mid_tail()) by {
                assert forall|k: int| 0 <= k < tl implies s.subrange(ju as int, ju + tl)[k]
                    == obj_secret_mid_tail()[k] by {
                    assert(s[ju + k] == obj_secret_mid_tail()[k]);
                }
            }
            assert(starts_at(s, ju as nat, obj_secret_mid_tail()));
            // The name string with its closing quote.
            let inm = ju + tl;
            assert forall|k: int| 0 <= k < mn + 1 implies s[inm + k] == #[trigger] (escape(name)
                + seq![CH_QUOTE])[k] by {
                assert(v[ol + mu + 1 + tl + k] == (escape(name) + seq![CH_QUOTE])[k]) by {
                    assert(obj_secret_mid() =~= seq![CH_QUOTE] + obj_secret_mid_tail());
                }
                assert(s[i + (ol + mu + 1 + tl + k)] == v[ol + mu + 1 + tl + k]);
            }
            lemma_skip_make(s, inm as nat, escape(name) + seq![CH_QUOTE]);
            assert(s.skip(inm as int) =~= escape(name) + seq![CH_QUOTE] + s.skip(
                (inm + mn + 1) as int,
            ));
            crate::jstring::lemma_unesc_of_escape(s, inm as nat, name);
            let jn = inm + mn + 1;
            assert(unesc_at(s, (ju + obj_secret_mid_tail().len()) as nat) == Some((name, jn as nat)));
            // The two closing braces.
            assert(vl == ol + mu + 1 + tl + mn + 1 + 2);
            assert(s[jn as int] == CH_RBRACE) by {
                assert(v[ol + mu + 1 + tl + mn + 1] == CH_RBRACE) by {
                    assert(obj_secret_mid() =~= seq![CH_QUOTE] + obj_secret_mid_tail());
                }
                assert(s[i + (ol + mu + 1 + tl + mn + 1)] == v[ol + mu + 1 + tl + mn + 1]);
            }
            assert(s[jn + 1] == CH_RBRACE) by {
                assert(v[ol + mu + 1 + tl + mn + 2] == CH_RBRACE) by {
                    assert(obj_secret_mid() =~= seq![CH_QUOTE] + obj_secret_mid_tail());
                }
                assert(s[i + (ol + mu + 1 + tl + mn + 2)] == v[ol + mu + 1 + tl + mn + 2]);
            }
            assert(jn + 2 == i + vl);
        },
    }
}

/// On the canonical text of one entry, the entry parse finds exactly the
/// item and stops at the entry's end.
#[verifier::rlimit(100)]
#[verifier::spinoff_prover]
proof fn lemma_parse_entry_of_text(s: Seq<u8>, i: nat, it: ItemModel)
    requires
        is_valid_key(it.key),
        i + entry_text(it).len() <= s.len(),
        s.skip(i as int) == entry_text(it) + s.skip((i + entry_text(it).len()) as int),
    ensures
        parse_entry_at(s, i) == EntryParse::Found(it, (i + entry_text(it).len()) as nat),
{
    let x = entry_text(it);
    let kl = it.key.len() as int;
    let vl = value_text(it).len() as int;
    lemma_skip_expose(s, i, x);
    let kw = choose|k: ChecksumKey| k.wf() && k.text() == it.key;
    crate::checksum::lemma_key_text_plain(kw);
    crate::jstring::lemma_escape_plain(it.key);
    assert(x =~= seq![CH_QUOTE] + (it.key + (seq![CH_QUOTE, CH_COLON, CH_SPACE] + value_text(
        it,
    ))));
    assert(s[i as int] == x[0]);
    assert(x[0] == CH_QUOTE);
    // The key with its closing quote.
    assert forall|k: int| 0 <= k < kl + 1 implies s[i + 1 + k] == #[trigger] (it.key + seq![
        CH_QUOTE,
    ])[k] by {
        assert(x[1 + k] == (it.key + seq![CH_QUOTE])[k]);
        assert(s[i + (1 + k)] == x[1 + k]);
    }
    lemma_skip_make(s, (i + 1) as nat, it.key + seq![CH_QUOTE]);
    assert(s.skip((i + 1) as int) =~= escape(it.key) + seq![CH_QUOTE] + s.skip(
        (i + 1 + kl + 1) as int,
    ));
    crate::jstring::lemma_unesc_of_escape(s, (i + 1) as nat, it.key);
    let j = i + kl + 2;
    assert(unesc_at(s, i + 1) == Some((it.key, j as nat)));
    // The colon and the space.
    assert(s[j as int] == CH_COLON) by {
        assert(x[kl + 2] == CH_COLON);
        assert(s[i + (kl + 2)] == x[kl + 2]);
    }
    assert(s[j + 1] == CH_SPACE) by {
        assert(x[kl + 3] == CH_SPACE);
        assert(s[i + (kl + 3)] == x[kl + 3]);
    }
    // The value.
    assert forall|k: int| 0 <= k < vl implies s[j + 2 + k] == #[trigger] value_text(it)[k] by {
        assert(x[kl + 4 + k] == value_text(it)[k]);
        assert(s[i + (kl + 4 + k)] == x[kl + 4 + k]);
    }
    lemma_skip_make(s, (j + 2) as nat, value_text(it));
    lemma_parse_value_of_text(s, (j + 2) as nat, it);
    assert(x.len() == kl + 4 + vl);
    assert(parse_value_at(s, (j + 2) as nat) == ValueParse::Found(
        it.url,
        it.secret,
        (i + x.len()) as nat,
    ));
    assert(ItemModel { key: it.key, url: it.url, secret: it.secret } == it);
}

/// Walking the canonical text of a whole item map moves the cursor to the
/// closing brace, item by item, with no key refused and none seen twice.
#[verifier::rlimit(100)]
#[verifier::spinoff_prover]
proof fn lemma_parse_entries_of_text(s: Seq<u8>, i: nat, items: Seq<ItemModel>, acc: Seq<
    ItemModel,
>)
    requires
        forall|x: int| 0 <= x < items.len() ==> is_valid_key(#[trigger] items[x].key),
        forall|x: int, y: int| 0 <= x < y < items.len() ==> items[x].key != items[y].key,
        forall|x: int, y: int|
            0 <= x < acc.len() && 0 <= y < items.len() ==> acc[x].key != items[y].key,
        i + entries_text(items).len() < s.len(),
        s.skip(i as int) == entries_text(items) + s.skip((i + entries_text(items).len()) as int),
        s[(i + entries_text(items).len()) as int] == CH_RBRACE,
    ensures
        parse_entries_at(s, i, acc) == parse_entries_at(
            s,
            (i + entries_text(items).len()) as nat,
            acc + items,
        ),
    decreases items.len(),
{
    if items.len() == 0 {
        assert(entries_text(items) =~= Seq::<u8>::empty());
        assert(acc + items =~= acc);
        assert(s.skip(i as int) =~= s.skip((i + entries_text(items).len()) as int));
    } else {
        let it = items[0];
        let el = entry_text(it).len() as int;
        let whole = entries_text(items).len() as int;
        lemma_skip_expose(s, i, entries_text(items));
        if items.len() == 1 {
            assert(entries_text(items) == entry_text(it));
            lemma_parse_entry_of_text(s, i, it);
            let j = i + el;
            assert(s[j as int] == CH_RBRACE);
            assert(s[i as int] == entry_text(it)[0]);
            assert(entry_text(it)[0] == CH_QUOTE);
            assert(!has_key(acc, it.key)) by {
                if has_key(acc, it.key) {
                    let x = choose|x: int| 0 <= x < acc.len() && acc[x].key == it.key;
                    assert(acc[x].key != items[0].key);
                }
            }
            assert(parse_entries_at(s, i, acc) == parse_entries_at(s, j as nat, acc.push(it)));
            assert(acc.push(it) =~= acc + items);
        } else {
            assert(entries_text(items) == entry_text(it) + seq![CH_COMMA, CH_SPACE]
                + entries_text(items.skip(1)));
            assert forall|k: int| 0 <= k < el implies s[i + k] == #[trigger] entry_text(it)[k] by {
                assert(entries_text(items)[k] == entry_text(it)[k]);
            }
            lemma_skip_make(s, i, entry_text(it));
            lemma_parse_entry_of_text(s, i, it);
            let j = i + el;
            assert(s[j as int] == CH_COMMA) by {
                assert(entries_text(items)[el] == CH_COMMA);
            }
            assert(s[j + 1] == CH_SPACE) by {
                assert(entries_text(items)[el + 1] == CH_SPACE);
            }
            assert(s[i as int] == entry_text(it)[0]);
            assert(entry_text(it)[0] == CH_QUOTE);
            assert(!has_key(acc, it.key)) by {
                if has_key(acc, it.key) {
                    let x = choose|x: int| 0 <= x < acc.len() && acc[x].key == it.key;
                    assert(acc[x].key != items[0].key);
                }
            }
            assert(parse_entries_at(s, i, acc) == parse_entries_at(
                s,
                (j + 2) as nat,
                acc.push(it),
            ));
            let rest = items.skip(1);
            let rl = entries_text(rest).len() as int;
            assert(whole == el + 2 + rl);
            assert forall|k: int| 0 <= k < rl implies s[j + 2 + k] == #[trigger] entries_text(
                rest,
            )[k] by {
                assert(entries_text(items)[el + 2 + k] == entries_text(rest)[k]);
                assert(s[i + (el + 2 + k)] == entries_text(items)[el + 2 + k]);
            }
            lemma_skip_make(s, (j + 2) as nat, entries_text(rest));
            assert forall|x: int| 0 <= x < rest.len() implies is_valid_key(
                #[trigger] rest[x].key,
            ) by {
                assert(rest[x] == items[x + 1]);
            }
            assert forall|x: int, y: int|
                0 <= x < y < rest.len() implies rest[x].key != rest[y].key by {
                assert(rest[x] == items[x + 1]);
                assert(rest[y] == items[y + 1]);
            }
            assert forall|x: int, y: int|
                0 <= x < acc.push(it).len() && 0 <= y < rest.len() implies acc.push(it)[x].key
                != rest[y].key by {
                assert(rest[y] == items[y + 1]);
                if x < acc.len() {
                    assert(acc.push(it)[x] == acc[x]);
                } else {
                    assert(acc.push(it)[x] == items[0]);
                }
            }
            lemma_parse_entries_of_text(s, (j + 2) as nat, rest, acc.push(it));
            assert(acc.push(it) + rest =~= acc + items);
        }
    }
}

/// Walking the canonical text of a section — its opening, its item map and
/// whatever follows the map — moves the entries cursor to the map's closing
/// brace with no key refused and none seen twice.
#[verifier::rlimit(100)]
#[verifier::spinoff_prover]
proof fn lemma_entries_region(sec: SectionName, items: Seq<ItemModel>, t: Seq<u8>)
    requires
        forall|x: int| 0 <= x < items.len() ==> is_valid_key(#[trigger] items[x].key),
        forall|x: int, y: int| 0 <= x < y < items.len() ==> items[x].key != items[y].key,
        t.len() >= 1,
        t[0] == CH_RBRACE,
    ensures
        ({
            let s = sec_open(sec) + entries_text(items) + t;
            let l0 = sec_open(sec).len() as int;
            let el = entries_text(items).len() as int;
            &&& parse_entries_at(s, l0 as nat, Seq::empty()) == parse_entries_at(
                s,
                (l0 + el) as nat,
                items,
            )
            &&& starts_at(s, 0, sec_open(sec))
            &&& forall|k: int| 0 <= k < t.len() ==> s[l0 + el + k] == #[trigger] t[k]
        }),
{
    let a = sec_open(sec);
    let b = entries_text(items);
    let s = a + b + t;
    let l0 = a.len() as int;
    let el = b.len() as int;
    assert forall|k: int| 0 <= k < el implies s[l0 + k] == #[trigger] b[k] by {
        assert(s[l0 + k] == (a + b)[l0 + k]);
    }
    assert forall|k: int| 0 <= k < t.len() implies s[l0 + el + k] == #[trigger] t[k] by {
        assert(s[l0 + el + k] == t[k]);
    }
    lemma_skip_make(s, l0 as nat, b);
    assert(s[l0 + el] == CH_RBRACE);
    lemma_parse_entries_of_text(s, l0 as nat, items, Seq::empty());
    assert(Seq::empty() + items =~= items);
    assert(s.subrange(0, l0) =~= a) by {
        assert forall|k: int| 0 <= k < l0 implies s.subrange(0, l0)[k] == a[k] by {
            assert(s[k] == (a + b)[k]);
        }
    }
}

/// At the map's closing brace with the text ending `}}`, the entries walk is
/// done with what it gathered.
proof fn lemma_entries_done(s: Seq<u8>, i: nat, acc: Seq<ItemModel>)
    requires
        i + 2 == s.len(),
        s[i as int] == CH_RBRACE,
        s[(i + 1) as int] == CH_RBRACE,
    ensures
        parse_entries_at(s, i, acc) == EntriesParse::Done(acc),
{
}

/// At the map's closing brace with a second member following, the entries
/// walk refuses the request.
proof fn lemma_entries_extra(s: Seq<u8>, i: nat, acc: Seq<ItemModel>)
    requires
        i + 3 < s.len(),
        s[i as int] == CH_RBRACE,
        s[(i + 1) as int] == CH_COMMA,
        s[(i + 2) as int] == CH_SPACE,
        s[(i + 3) as int] == CH_QUOTE,
    ensures
        parse_entries_at(s, i, acc) == EntriesParse::Extra,
{
    assert(!(i + 2 == s.len() && s[(i + 1) as int] == CH_RBRACE));
}

/// A text opening the `urls` section does not open the `items` section.
proof fn lemma_urls_not_items(s: Seq<u8>)
    requires
        starts_at(s, 0, sec_open(SectionName::Urls)),
    ensures
        !starts_at(s, 0, sec_open(SectionName::Items)),
{
    if starts_at(s, 0, sec_open(SectionName::Items)) {
        assert(s.subrange(0, 11)[2] == sec_open(SectionName::Items)[2]);
        assert(s.subrange(0, 10)[2] == sec_open(SectionName::Urls)[2]);
    }
}

/// With one section opening the text, the request parse is the entries walk
/// of that section.
proof fn lemma_parse_method_dispatch(s: Seq<u8>, sec: SectionName)
    requires
        s != seq![CH_LBRACE, CH_RBRACE],
        starts_at(s, 0, sec_open(sec)),
        sec == SectionName::Items || !starts_at(s, 0, sec_open(SectionName::Items)),
    ensures
        parse_method(s) == finish_section(
            parse_entries_at(s, sec_open(sec).len(), Seq::empty()),
            sec,
        ),
{
    match sec {
        SectionName::Items => {},
        SectionName::Urls => {},
    }
}

/// Decoding what the encoder wrote gives the request back: the canonical
/// text of a schema-conforming request parses to exactly that request.
#[verifier::rlimit(100)]
#[verifier::spinoff_prover]
pub proof fn lemma_method_round_trip(m: MethodModel)
    requires
        model_wf(m),
    ensures
        parse_method(method_text(m)) == MethodParse::Parsed(m),
{
    let a = sec_open(m.section);
    let b = entries_text(m.items);
    let t = seq![CH_RBRACE, CH_RBRACE];
    let s = a + b + t;
    let l0 = a.len() as int;
    let el = b.len() as int;
    lemma_entries_region(m.section, m.items, t);
    assert(s.len() == l0 + el + 2);
    assert(s[l0 + el + 0] == t[0]);
    assert(s[l0 + el + 1] == t[1]);
    lemma_entries_done(s, (l0 + el) as nat, m.items);
    assert(s != seq![CH_LBRACE, CH_RBRACE]) by {
        if s == seq![CH_LBRACE, CH_RBRACE] {
            assert(s.len() == 2);
        }
    }
    if m.section == SectionName::Urls {
        lemma_urls_not_items(s);
    }
    lemma_parse_method_dispatch(s, m.section);
    assert(MethodModel { section: m.section, items: m.items } == m);
}

/// An empty request object carries neither `items` nor `urls` and is
/// refused as a schema violation.
pub proof fn lemma_schema_missing()
    ensures
        parse_method(seq![CH_LBRACE, CH_RBRACE]) == MethodParse::Missing,
{
}

/// A request carrying a second member after its item map — `urls` beside
/// `items` — is refused as a schema violation, whatever the map holds and
/// whatever the second member is.
#[verifier::rlimit(100)]
#[verifier::spinoff_prover]
pub proof fn lemma_schema_both(items: Seq<ItemModel>, second: Seq<u8>)
    requires
        forall|x: int| 0 <= x < items.len() ==> is_valid_key(#[trigger] items[x].key),
        forall|x: int, y: int| 0 <= x < y < items.len() ==> items[x].key != items[y].key,
    ensures
        parse_method(
            sec_open(SectionName::Items) + entries_text(items) + seq![
                CH_RBRACE,
                CH_COMMA,
                CH_SPACE,
                CH_QUOTE,
            ] + second,
        ) == MethodParse::Extra,
{
    let a = sec_open(SectionName::Items);
    let b = entries_text(items);
    let c4 = seq![CH_RBRACE, CH_COMMA, CH_SPACE, CH_QUOTE];
    let t = c4 + second;
    let s = a + b + t;
    let l0 = a.len() as int;
    let el = b.len() as int;
    assert(a + b + c4 + second =~= s);
    lemma_entries_region(SectionName::Items, items, t);
    assert(s.len() == l0 + el + 4 + second.len());
    assert(s != seq![CH_LBRACE, CH_RBRACE]) by {
        if s == seq![CH_LBRACE, CH_RBRACE] {
            assert(s.len() == 2);
        }
    }
    assert(s[l0 + el + 0] == t[0]);
    assert(s[l0 + el + 1] == t[1]);
    assert(s[l0 + el + 2] == t[2]);
    assert(s[l0 + el + 3] == t[3]);
    assert(t[0] == CH_RBRACE && t[1] == CH_COMMA && t[2] == CH_SPACE && t[3] == CH_QUOTE);
    lemma_entries_extra(s, (l0 + el) as nat, items);
    lemma_parse_method_dispatch(s, SectionName::Items);
}


/// Encodes a request to its canonical wire text.
pub fn encode_method(m: &Method) -> (v: Vec<u8>)
    ensures
        v@ == method_text(m@),
{
    let mut v = sec_open_vec(m.section);
    let mut i: usize = 0;
    while i < m.items.len()
        invariant
            i <= m.items@.len(),
            v@ == sec_open(m.section) + entries_text(m@.items.take(i as int)),
        decreases m.items@.len() - i,
    {
        if i > 0 {
            v.push(CH_COMMA);
            v.push(CH_SPACE);
        }
        push_entry(&mut v, &m.items[i]);
        proof {
            let pre = m@.items.take(i as int);
            let cur = m@.items.take(i + 1);
            assert(cur =~= pre.push(m.items@[i as int]@));
            lemma_entries_text_push(pre, m.items@[i as int]@);
            assert(v@ =~= sec_open(m.section) + entries_text(cur));
        }
        i = i + 1;
    }
    v.push(CH_RBRACE);
    v.push(CH_RBRACE);
    proof {
        assert(m@.items.take(m.items@.len() as int) =~= m@.items);
        assert(v@ =~= method_text(m@));
    }
    v
}

} // verus!
