//! JSON string bodies on the wire.  The envelope and every payload carry
//! text inside double quotes; a quote, a backslash and the control characters
//! are escaped.  The writer emits one canonical form and the scanner accepts
//! exactly that form, which is what makes decoding the inverse of encoding.

use vstd::prelude::*;

use crate::ascii::{CH_0, CH_9, CH_A, CH_BACKSLASH, CH_F, CH_QUOTE, CH_U};
use crate::bytes::is_hex_digit;

verus! {

/// The lowercase hex character for the nibble `n`.
pub open spec fn hex_char(n: u8) -> u8
    recommends
        n < 16,
{
    if n < 10 {
        (CH_0 + n) as u8
    } else {
        (CH_A + n - 10) as u8
    }
}

/// The value of the lowercase hex character `b`.
pub open spec fn hex_val(b: u8) -> u8
    recommends
        is_hex_digit(b),
{
    if b <= CH_9 {
        (b - CH_0) as u8
    } else {
        (b - CH_A + 10) as u8
    }
}

pub proof fn lemma_hex_char_val(n: u8)
    requires
        n < 16,
    ensures
        is_hex_digit(hex_char(n)),
        hex_val(hex_char(n)) == n,
{
}

pub proof fn lemma_hex_val_char(b: u8)
    requires
        is_hex_digit(b),
    ensures
        hex_val(b) < 16,
        hex_char(hex_val(b)) == b,
{
}

/// How one byte is written inside a quoted string.
pub open spec fn esc_byte(b: u8) -> Seq<u8> {
    if b == CH_QUOTE {
        seq![CH_BACKSLASH, CH_QUOTE]
    } else if b == CH_BACKSLASH {
        seq![CH_BACKSLASH, CH_BACKSLASH]
    } else if b < 32 {
        seq![CH_BACKSLASH, CH_U, CH_0, CH_0, hex_char(b / 16), hex_char(b % 16)]
    } else {
        seq![b]
    }
}

/// The escaped form of a whole string body.
pub open spec fn escape(s: Seq<u8>) -> Seq<u8>
    decreases s.len(),
{
    if s.len() == 0 {
        Seq::empty()
    } else {
        esc_byte(s[0]) + escape(s.skip(1))
    }
}

pub proof fn lemma_escape_append(a: Seq<u8>, b: Seq<u8>)
    ensures
        escape(a + b) == escape(a) + escape(b),
    decreases a.len(),
{
    if a.len() == 0 {
        assert(a + b =~= b);
        assert(escape(a) + escape(b) =~= escape(b));
    } else {
        lemma_escape_append(a.skip(1), b);
        assert((a + b).skip(1) =~= a.skip(1) + b);
        assert(escape(a + b) =~= escape(a) + escape(b));
    }
}

pub proof fn lemma_escape_single(b: u8)
    ensures
        escape(seq![b]) == esc_byte(b),
{
    assert(seq![b][0] == b);
    assert(seq![b].skip(1) =~= Seq::<u8>::empty());
    assert(escape(Seq::<u8>::empty()) =~= Seq::<u8>::empty());
    assert(escape(seq![b]) =~= esc_byte(b) + escape(seq![b].skip(1)));
    assert(esc_byte(b) + Seq::<u8>::empty() =~= esc_byte(b));
}

/// Whether every byte of `s` is written as itself inside a quoted string.
pub open spec fn plain(s: Seq<u8>) -> bool {
    forall|i: int|
        0 <= i < s.len() ==> 32 <= #[trigger] s[i] && s[i] != CH_QUOTE && s[i] != CH_BACKSLASH
}

/// A plain string escapes to itself.
pub proof fn lemma_escape_plain(s: Seq<u8>)
    requires
        plain(s),
    ensures
        escape(s) == s,
    decreases s.len(),
{
    if s.len() == 0 {
        assert(escape(s) =~= s);
    } else {
        assert(32 <= s[0] && s[0] != CH_QUOTE && s[0] != CH_BACKSLASH);
        assert(plain(s.skip(1))) by {
            assert forall|i: int| 0 <= i < s.skip(1).len() implies 32 <= #[trigger] s.skip(1)[i]
                && s.skip(1)[i] != CH_QUOTE && s.skip(1)[i] != CH_BACKSLASH by {
                assert(s.skip(1)[i] == s[i + 1]);
            }
        }
        lemma_escape_plain(s.skip(1));
        assert(esc_byte(s[0]) =~= seq![s[0]]);
        assert(escape(s) =~= seq![s[0]] + s.skip(1));
        assert(seq![s[0]] + s.skip(1) =~= s);
    }
}

/// Prepends one decoded byte to a scan result.
pub open spec fn scan_cons(b: u8, r: Option<(Seq<u8>, nat)>) -> Option<(Seq<u8>, nat)> {
    match r {
        Some((d, n)) => Some((seq![b] + d, n)),
        None => None,
    }
}

/// Scans a quoted string body in `s` starting at `i`: decodes escapes until
/// the closing quote, returning the decoded body and the index just past the
/// quote.  Only the canonical escapes the writer emits are accepted.
pub open spec fn unesc_at(s: Seq<u8>, i: nat) -> Option<(Seq<u8>, nat)>
    decreases s.len() - i,
{
    if i >= s.len() {
        None
    } else if s[i as int] == CH_QUOTE {
        Some((Seq::empty(), i + 1))
    } else if s[i as int] == CH_BACKSLASH {
        if i + 2 <= s.len() && s[(i + 1) as int] == CH_QUOTE {
            scan_cons(CH_QUOTE, unesc_at(s, i + 2))
        } else if i + 2 <= s.len() && s[(i + 1) as int] == CH_BACKSLASH {
            scan_cons(CH_BACKSLASH, unesc_at(s, i + 2))
        } else if i + 6 <= s.len() && s[(i + 1) as int] == CH_U && s[(i + 2) as int] == CH_0 && s[(i + 3) as int] == CH_0
            && is_hex_digit(s[(i + 4) as int]) && is_hex_digit(s[(i + 5) as int]) && hex_val(s[(i + 4) as int]) * 16
            + hex_val(s[(i + 5) as int]) < 32 {
            scan_cons((hex_val(s[(i + 4) as int]) * 16 + hex_val(s[(i + 5) as int])) as u8, unesc_at(s, i + 6))
        } else {
            None
        }
    } else if s[i as int] >= 32 {
        scan_cons(s[i as int], unesc_at(s, i + 1))
    } else {
        None
    }
}

/// Scanning what the writer wrote gives the same body back: the scan of
/// `escape(d)` followed by a closing quote decodes to `d` and stops just past
/// that quote.
pub proof fn lemma_unesc_of_escape(s: Seq<u8>, i: nat, d: Seq<u8>)
    requires
        i <= s.len(),
        s.skip(i as int) == escape(d) + seq![CH_QUOTE] + s.skip((i + escape(d).len() + 1) as int),
        i + escape(d).len() + 1 <= s.len(),
    ensures
        unesc_at(s, i) == Some((d, (i + escape(d).len() + 1) as nat)),
    decreases d.len(),
{
    let tail = s.skip(i as int);
    let m = escape(d).len();
    if d.len() == 0 {
        assert(escape(d) =~= Seq::<u8>::empty());
        assert(tail[0] == CH_QUOTE);
        assert(s[i as int + 0] == tail[0]);
        assert(s[i as int] == CH_QUOTE);
        assert(d =~= Seq::<u8>::empty());
        assert(unesc_at(s, i) == Some((Seq::<u8>::empty(), i + 1)));
    } else {
        let b = d[0];
        let e = esc_byte(b);
        let d1 = d.skip(1);
        assert(escape(d) == e + escape(d1));
        let j = i + e.len();
        assert(j + escape(d1).len() + 1 == i + m + 1);
        assert forall|k: int| 0 <= k < e.len() implies #[trigger] s[i + k] == e[k] by {
            assert(tail[k] == s[i + k]);
            assert(tail[k] == (escape(d) + seq![CH_QUOTE] + s.skip((i + m + 1) as int))[k]);
            assert((e + escape(d1))[k] == e[k]);
        }
        // The remainder past this byte's escape is again an escaped body.
        assert(s.skip(j as int) =~= escape(d1) + seq![CH_QUOTE] + s.skip((j + escape(d1).len() + 1) as int)) by {
            assert forall|k: int| 0 <= k < s.len() - j implies s.skip(j as int)[k] == (escape(d1)
                + seq![CH_QUOTE] + s.skip((j + escape(d1).len() + 1) as int))[k] by {
                assert(s.skip(j as int)[k] == tail[k + e.len()]);
                assert(tail[k + e.len()] == (escape(d) + seq![CH_QUOTE] + s.skip((i + m + 1) as int))[k + e.len()]);
            }
        }
        lemma_unesc_of_escape(s, j, d1);
        assert(seq![b] + d1 =~= d);
        if b == CH_QUOTE {
            assert(e =~= seq![CH_BACKSLASH, CH_QUOTE]);
            assert(s[i as int + 0] == CH_BACKSLASH);
            assert(s[i as int + 1] == CH_QUOTE);
            assert(i + 2 <= s.len());
            assert(unesc_at(s, i) == scan_cons(CH_QUOTE, unesc_at(s, i + 2)));
        } else if b == CH_BACKSLASH {
            assert(e =~= seq![CH_BACKSLASH, CH_BACKSLASH]);
            assert(s[i as int + 0] == CH_BACKSLASH);
            assert(s[i as int + 1] == CH_BACKSLASH);
            assert(i + 2 <= s.len());
            assert(unesc_at(s, i) == scan_cons(CH_BACKSLASH, unesc_at(s, i + 2)));
        } else if b < 32 {
            assert(e =~= seq![CH_BACKSLASH, CH_U, CH_0, CH_0, hex_char(b / 16), hex_char(b % 16)]);
            assert(s[i as int + 0] == CH_BACKSLASH);
            assert(s[i as int + 1] == CH_U);
            assert(s[i as int + 2] == CH_0);
            assert(s[i as int + 3] == CH_0);
            assert(s[i as int + 4] == hex_char(b / 16));
            assert(s[i as int + 5] == hex_char(b % 16));
            assert(i + 6 <= s.len());
            lemma_hex_char_val(b / 16);
            lemma_hex_char_val(b % 16);
            assert(hex_val(s[(i + 4) as int]) == b / 16);
            assert(hex_val(s[(i + 5) as int]) == b % 16);
            assert(hex_val(s[(i + 4) as int]) * 16 + hex_val(s[(i + 5) as int]) == b);
            assert(unesc_at(s, i) == scan_cons(b, unesc_at(s, i + 6)));
        } else {
            assert(e =~= seq![b]);
            assert(s[i as int + 0] == b);
            assert(s[i as int] == b);
            assert(i + 1 <= s.len());
            assert(unesc_at(s, i) == scan_cons(b, unesc_at(s, i + 1)));
        }
    }
}

/// A successful scan only ever reads back the writer's output: if the scan
/// of `s` at `i` yields `d`, then the bytes consumed are exactly
/// `escape(d)` plus the closing quote.
/// A subrange whose head bytes and tail subrange are known splits into the two.
proof fn lemma_subrange_split(s: Seq<u8>, i: nat, k0: nat, n: nat, head: Seq<u8>, rest: Seq<u8>)
    requires
        i + k0 <= n <= s.len(),
        head.len() == k0,
        forall|k: int| 0 <= k < k0 ==> s[i + k] == head[k],
        s.subrange((i + k0) as int, n as int) == rest,
    ensures
        s.subrange(i as int, n as int) == head + rest,
{
    assert forall|k: int| 0 <= k < n - i implies s.subrange(i as int, n as int)[k] == (head
        + rest)[k] by {
        assert(s.subrange(i as int, n as int)[k] == s[i + k]);
        if k >= k0 {
            assert(s.subrange((i + k0) as int, n as int)[k - k0] == rest[k - k0]);
            assert(s[i + k] == s.subrange((i + k0) as int, n as int)[k - k0]);
        }
    }
    assert(s.subrange(i as int, n as int) =~= head + rest);
}

pub proof fn lemma_unesc_sound(s: Seq<u8>, i: nat)
    requires
        unesc_at(s, i) is Some,
    ensures
        ({
            let (d, n) = unesc_at(s, i)->Some_0;
            &&& i <= s.len()
            &&& i + escape(d).len() + 1 == n
            &&& n <= s.len()
            &&& s.subrange(i as int, n as int) == escape(d) + seq![CH_QUOTE]
        }),
    decreases s.len() - i,
{
    let (d, n) = unesc_at(s, i)->Some_0;
    if s[i as int] == CH_QUOTE {
        assert(s.subrange(i as int, (i + 1) as int) =~= escape(d) + seq![CH_QUOTE]);
    } else if s[i as int] == CH_BACKSLASH {
        if i + 2 <= s.len() && (s[(i + 1) as int] == CH_QUOTE || s[(i + 1) as int] == CH_BACKSLASH) {
            let b = s[(i + 1) as int];
            lemma_unesc_sound(s, i + 2);
            let (d1, n1) = unesc_at(s, i + 2)->Some_0;
            assert(d == seq![b] + d1);
            assert(escape(d) == esc_byte(b) + escape(d1)) by {
                lemma_escape_append(seq![b], d1);
                lemma_escape_single(b);
            }
            assert(esc_byte(b) =~= seq![CH_BACKSLASH, b]);
            assert(seq![CH_BACKSLASH, b][0] == CH_BACKSLASH);
            assert(seq![CH_BACKSLASH, b][1] == b);
            assert(s[i as int + 0] == CH_BACKSLASH);
            assert(s[i as int + 1] == b);
            lemma_subrange_split(s, i, 2, n, seq![CH_BACKSLASH, b], escape(d1) + seq![CH_QUOTE]);
            assert(seq![CH_BACKSLASH, b] + (escape(d1) + seq![CH_QUOTE]) =~= escape(d) + seq![
                CH_QUOTE,
            ]);
            assert(s.subrange(i as int, n as int) =~= escape(d) + seq![CH_QUOTE]);
        } else {
            let b = (hex_val(s[(i + 4) as int]) * 16 + hex_val(s[(i + 5) as int])) as u8;
            lemma_unesc_sound(s, i + 6);
            let (d1, n1) = unesc_at(s, i + 6)->Some_0;
            assert(d == seq![b] + d1);
            assert(escape(d) == esc_byte(b) + escape(d1)) by {
                lemma_escape_append(seq![b], d1);
                lemma_escape_single(b);
            }
            lemma_hex_val_char(s[(i + 4) as int]);
            lemma_hex_val_char(s[(i + 5) as int]);
            assert(b / 16 == hex_val(s[(i + 4) as int]) && b % 16 == hex_val(s[(i + 5) as int]));
            assert(esc_byte(b) =~= seq![
                CH_BACKSLASH,
                CH_U,
                CH_0,
                CH_0,
                hex_char(b / 16),
                hex_char(b % 16),
            ]);
            assert(s[i as int + 0] == CH_BACKSLASH);
            assert(s[i as int + 1] == CH_U);
            assert(s[i as int + 2] == CH_0);
            assert(s[i as int + 3] == CH_0);
            assert(s[i as int + 4] == hex_char(b / 16));
            assert(s[i as int + 5] == hex_char(b % 16));
            lemma_subrange_split(s, i, 6, n, esc_byte(b), escape(d1) + seq![CH_QUOTE]);
            assert(esc_byte(b) + (escape(d1) + seq![CH_QUOTE]) =~= escape(d) + seq![CH_QUOTE]);
            assert(s.subrange(i as int, n as int) =~= escape(d) + seq![CH_QUOTE]);
        }
    } else {
        let b = s[i as int];
        lemma_unesc_sound(s, i + 1);
        let (d1, n1) = unesc_at(s, i + 1)->Some_0;
        assert(d == seq![b] + d1);
        assert(escape(d) == esc_byte(b) + escape(d1)) by {
            lemma_escape_append(seq![b], d1);
            lemma_escape_single(b);
        }
        assert(esc_byte(b) =~= seq![b]);
        assert(s[i as int + 0] == b);
        lemma_subrange_split(s, i, 1, n, seq![b], escape(d1) + seq![CH_QUOTE]);
        assert(seq![b] + (escape(d1) + seq![CH_QUOTE]) =~= escape(d) + seq![CH_QUOTE]);
        assert(s.subrange(i as int, n as int) =~= escape(d) + seq![CH_QUOTE]);
    }
}

/// Writes the escaped form of `data`, without the surrounding quotes.
pub fn escape_into(out: &mut Vec<u8>, data: &Vec<u8>)
    ensures
        final(out)@ == old(out)@ + escape(data@),
{
    let mut i: usize = 0;
    while i < data.len()
        invariant
            i <= data@.len(),
            out@ == old(out)@ + escape(data@.subrange(0, i as int)),
        decreases data@.len() - i,
    {
        let b = data[i];
        if b == CH_QUOTE {
            out.push(CH_BACKSLASH);
            out.push(CH_QUOTE);
        } else if b == CH_BACKSLASH {
            out.push(CH_BACKSLASH);
            out.push(CH_BACKSLASH);
        } else if b < 32 {
            out.push(CH_BACKSLASH);
            out.push(CH_U);
            out.push(CH_0);
            out.push(CH_0);
            let hi = b / 16;
            let lo = b % 16;
            out.push(if hi < 10 { CH_0 + hi } else { CH_A + hi - 10 });
            out.push(if lo < 10 { CH_0 + lo } else { CH_A + lo - 10 });
        } else {
            out.push(b);
        }
        proof {
            let pre = data@.subrange(0, i as int);
            let cur = data@.subrange(0, i + 1);
            assert(cur =~= pre + seq![b]);
            lemma_escape_append(pre, seq![b]);
            lemma_escape_single(b);
            assert(out@ =~= old(out)@ + escape(cur));
        }
        i = i + 1;
    }
    proof {
        assert(data@.subrange(0, data@.len() as int) =~= data@);
    }
}

/// Scans a quoted string body in `s` from `from`, decoding the canonical
/// escapes, up to and past the closing quote.  Returns exactly what the
/// scanning specification says.
pub fn unescape_scan(s: &[u8], from: usize) -> (r: Option<(Vec<u8>, usize)>)
    requires
        from <= s@.len(),
    ensures
        match r {
            Some(p) => unesc_at(s@, from as nat) == Some((p.0@, p.1 as nat)),
            None => unesc_at(s@, from as nat) is None,
        },
{
    let n: usize = s.len();
    let mut i: usize = from;
    let mut out: Vec<u8> = Vec::new();
    loop
        invariant
            from <= i <= n,
            n == s@.len(),
            unesc_at(s@, from as nat) == scan_cons_all(out@, unesc_at(s@, i as nat)),
        decreases n - i,
    {
        if i >= n {
            return None;
        }
        let b = s[i];
        if b == CH_QUOTE {
            proof {
                assert(unesc_at(s@, i as nat) == Some((Seq::<u8>::empty(), (i + 1) as nat)));
                assert(out@ + Seq::<u8>::empty() =~= out@);
            }
            return Some((out, i + 1));
        } else if b == CH_BACKSLASH {
            if n - i >= 2 && (s[i + 1] == CH_QUOTE || s[i + 1] == CH_BACKSLASH) {
                let c = s[i + 1];
                proof {
                    lemma_scan_cons_all(out@, c, unesc_at(s@, (i + 2) as nat));
                }
                out.push(c);
                i = i + 2;
            } else if n - i >= 6 && s[i + 1] == CH_U && s[i + 2] == CH_0 && s[i + 3] == CH_0 {
                let h1 = s[i + 4];
                let h2 = s[i + 5];
                let hex1 = (CH_0 <= h1 && h1 <= CH_9) || (CH_A <= h1 && h1 <= CH_F);
                let hex2 = (CH_0 <= h2 && h2 <= CH_9) || (CH_A <= h2 && h2 <= CH_F);
                if !hex1 || !hex2 {
                    return None;
                }
                let v1 = if h1 <= CH_9 { h1 - CH_0 } else { h1 - CH_A + 10 };
                let v2 = if h2 <= CH_9 { h2 - CH_0 } else { h2 - CH_A + 10 };
                if v1 * 16 + v2 >= 32 {
                    return None;
                }
                let c = v1 * 16 + v2;
                proof {
                    lemma_scan_cons_all(out@, c, unesc_at(s@, (i + 6) as nat));
                }
                out.push(c);
                i = i + 6;
            } else {
                return None;
            }
        } else if b >= 32 {
            proof {
                lemma_scan_cons_all(out@, b, unesc_at(s@, (i + 1) as nat));
            }
            out.push(b);
            i = i + 1;
        } else {
            return None;
        }
    }
}

/// Prepends a whole decoded prefix to a scan result.
pub open spec fn scan_cons_all(pre: Seq<u8>, r: Option<(Seq<u8>, nat)>) -> Option<
    (Seq<u8>, nat),
> {
    match r {
        Some((d, n)) => Some((pre + d, n)),
        None => None,
    }
}

proof fn lemma_scan_cons_all(pre: Seq<u8>, b: u8, r: Option<(Seq<u8>, nat)>)
    ensures
        scan_cons_all(pre, scan_cons(b, r)) == scan_cons_all(pre.push(b), r),
{
    match r {
        Some((d, n)) => {
            assert(pre + (seq![b] + d) =~= pre.push(b) + d);
        },
        None => {},
    }
}

} // verus!
