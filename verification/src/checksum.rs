//! Checksum keys: `algorithm:hexdigest` identifiers that address content both
//! in the fetch request and in the content cache.

use vstd::prelude::*;

use crate::ascii::{CH_1, CH_2, CH_3, CH_4, CH_5, CH_6, CH_8, CH_9, CH_0, CH_A, CH_COLON, CH_D,
    CH_F, CH_H, CH_M, CH_S};
use crate::bytes::{has_prefix_at, is_hex_digit};

verus! {

/// Digest algorithms a checksum key may name.
#[derive(Clone, Copy, PartialEq, Eq, Structural, Debug)]
pub enum Algorithm {
    Md5,
    Sha1,
    Sha256,
    Sha384,
    Sha512,
}

impl Algorithm {
    /// Number of lowercase hexadecimal characters in a digest of this algorithm.
    pub open spec fn digest_len_spec(self) -> nat {
        match self {
            Algorithm::Md5 => 32,
            Algorithm::Sha1 => 40,
            Algorithm::Sha256 => 64,
            Algorithm::Sha384 => 96,
            Algorithm::Sha512 => 128,
        }
    }

    pub fn digest_len(self) -> (n: usize)
        ensures
            n == self.digest_len_spec(),
    {
        match self {
            Algorithm::Md5 => 32,
            Algorithm::Sha1 => 40,
            Algorithm::Sha256 => 64,
            Algorithm::Sha384 => 96,
            Algorithm::Sha512 => 128,
        }
    }

    /// The textual tag naming this algorithm at the front of a checksum key.
    pub open spec fn tag_spec(self) -> Seq<u8> {
        match self {
            Algorithm::Md5 => seq![CH_M, CH_D, CH_5],
            Algorithm::Sha1 => seq![CH_S, CH_H, CH_A, CH_1],
            Algorithm::Sha256 => seq![CH_S, CH_H, CH_A, CH_2, CH_5, CH_6],
            Algorithm::Sha384 => seq![CH_S, CH_H, CH_A, CH_3, CH_8, CH_4],
            Algorithm::Sha512 => seq![CH_S, CH_H, CH_A, CH_5, CH_1, CH_2],
        }
    }

    /// The tag as runnable bytes.
    pub fn tag_vec(self) -> (v: Vec<u8>)
        ensures
            v@ == self.tag_spec(),
    {
        let mut v: Vec<u8> = Vec::new();
        match self {
            Algorithm::Md5 => {
                v.push(CH_M);
                v.push(CH_D);
                v.push(CH_5);
            }
            Algorithm::Sha1 => {
                v.push(CH_S);
                v.push(CH_H);
                v.push(CH_A);
                v.push(CH_1);
            }
            Algorithm::Sha256 => {
                v.push(CH_S);
                v.push(CH_H);
                v.push(CH_A);
                v.push(CH_2);
                v.push(CH_5);
                v.push(CH_6);
            }
            Algorithm::Sha384 => {
                v.push(CH_S);
                v.push(CH_H);
                v.push(CH_A);
                v.push(CH_3);
                v.push(CH_8);
                v.push(CH_4);
            }
            Algorithm::Sha512 => {
                v.push(CH_S);
                v.push(CH_H);
                v.push(CH_A);
                v.push(CH_5);
                v.push(CH_1);
                v.push(CH_2);
            }
        }
        proof {
            assert(v@ =~= self.tag_spec());
        }
        v
    }
}

/// A parsed checksum key: the algorithm together with its hex digest.
#[derive(Debug)]
pub struct ChecksumKey {
    pub algorithm: Algorithm,
    pub digest: Vec<u8>,
}

impl ChecksumKey {
    /// Well-formedness: the digest has exactly the algorithm's length and is
    /// made of lowercase hex characters.
    pub open spec fn wf(self) -> bool {
        &&& self.digest@.len() == self.algorithm.digest_len_spec()
        &&& forall|i: int| 0 <= i < self.digest@.len() ==> is_hex_digit(self.digest@[i])
    }

    /// The textual form `tag:digest` that appears on the wire and as a cache key.
    pub open spec fn text(self) -> Seq<u8> {
        self.algorithm.tag_spec() + seq![CH_COLON] + self.digest@
    }

    /// The textual form as runnable bytes.
    pub fn text_vec(&self) -> (v: Vec<u8>)
        ensures
            v@ == self.text(),
    {
        let mut v = self.algorithm.tag_vec();
        v.push(CH_COLON);
        let mut i: usize = 0;
        while i < self.digest.len()
            invariant
                i <= self.digest@.len(),
                v@ == self.algorithm.tag_spec() + seq![CH_COLON] + self.digest@.subrange(0, i as int),
            decreases self.digest@.len() - i,
        {
            v.push(self.digest[i]);
            i = i + 1;
            proof {
                assert(self.digest@.subrange(0, i as int) =~= self.digest@.subrange(
                    0,
                    i - 1,
                ).push(self.digest@[i - 1]));
            }
        }
        proof {
            assert(self.digest@.subrange(0, self.digest@.len() as int) =~= self.digest@);
        }
        v
    }

    /// Parses one algorithm's form of a checksum key: the whole of `s` must
    /// read `tag:digest` for this algorithm.
    fn try_parse(s: &[u8], a: Algorithm) -> (r: Option<ChecksumKey>)
        ensures
            match r {
                Some(k) => k.wf() && k.algorithm == a && k.text() == s@,
                None => forall|k: ChecksumKey|
                    k.wf() && k.algorithm == a ==> k.text() != s@,
            },
    {
        let mut p = a.tag_vec();
        p.push(CH_COLON);
        proof {
            assert(p@ =~= a.tag_spec() + seq![CH_COLON]);
        }
        if !has_prefix_at(s, 0, &p) {
            proof {
                assert forall|k: ChecksumKey|
                    k.wf() && k.algorithm == a implies k.text() != s@ by {
                    if k.text() == s@ {
                        assert(s@.len() == p@.len() + k.digest@.len());
                        assert(s@.subrange(0, p@.len() as int) =~= p@);
                    }
                }
            }
            return None;
        }
        let dl = a.digest_len();
        if s.len() != p.len() + dl {
            proof {
                assert forall|k: ChecksumKey|
                    k.wf() && k.algorithm == a implies k.text() != s@ by {
                    if k.text() == s@ {
                        assert(s@.len() == p@.len() + k.digest@.len());
                    }
                }
            }
            return None;
        }
        let mut digest: Vec<u8> = Vec::new();
        let mut i: usize = p.len();
        while i < s.len()
            invariant
                p@.len() <= i <= s@.len(),
                s@.len() == p@.len() + a.digest_len_spec(),
                digest@ == s@.subrange(p@.len() as int, i as int),
                forall|j: int| 0 <= j < digest@.len() ==> is_hex_digit(digest@[j]),
                p@ == a.tag_spec() + seq![CH_COLON],
                s@.subrange(0, p@.len() as int) == p@,
            decreases s@.len() - i,
        {
            let b = s[i];
            if !((CH_0 <= b && b <= CH_9) || (CH_A <= b && b <= CH_F)) {
                proof {
                    assert forall|k: ChecksumKey|
                        k.wf() && k.algorithm == a implies k.text() != s@ by {
                        if k.text() == s@ {
                            assert(k.digest@[i - p@.len()] == s@[i as int]);
                            assert(is_hex_digit(s@[i as int]));
                        }
                    }
                }
                return None;
            }
            digest.push(b);
            i = i + 1;
            proof {
                assert(s@.subrange(p@.len() as int, i as int) =~= s@.subrange(
                    p@.len() as int,
                    i - 1,
                ).push(s@[i - 1]));
            }
        }
        let k = ChecksumKey { algorithm: a, digest };
        proof {
            assert(s@ =~= s@.subrange(0, p@.len() as int) + s@.subrange(
                p@.len() as int,
                s@.len() as int,
            ));
            assert(k.text() =~= s@);
        }
        Some(k)
    }

    /// A copy of this key.
    pub fn clone_key(&self) -> (r: ChecksumKey)
        ensures
            r.algorithm == self.algorithm,
            r.digest@ == self.digest@,
    {
        ChecksumKey {
            algorithm: self.algorithm,
            digest: crate::bytes::copy_bytes(&self.digest),
        }
    }

    /// Whether two keys name the same algorithm and digest.
    pub fn same(&self, other: &ChecksumKey) -> (r: bool)
        ensures
            r == (self.algorithm == other.algorithm && self.digest@ == other.digest@),
    {
        if self.algorithm != other.algorithm {
            return false;
        }
        if self.digest.len() != other.digest.len() {
            return false;
        }
        let mut i: usize = 0;
        while i < self.digest.len()
            invariant
                i <= self.digest@.len(),
                self.digest@.len() == other.digest@.len(),
                forall|j: int| 0 <= j < i ==> self.digest@[j] == other.digest@[j],
            decreases self.digest@.len() - i,
        {
            if self.digest[i] != other.digest[i] {
                return false;
            }
            i = i + 1;
        }
        proof {
            assert(self.digest@ =~= other.digest@);
        }
        true
    }
}

/// Two well-formed keys with the same text name the same algorithm and
/// digest: the text determines the key.
pub proof fn lemma_key_text_injective(k1: ChecksumKey, k2: ChecksumKey)
    requires
        k1.wf(),
        k2.wf(),
        k1.text() == k2.text(),
    ensures
        k1.algorithm == k2.algorithm,
        k1.digest@ == k2.digest@,
{
    if k1.algorithm != k2.algorithm {
        // Every pair of distinct tags differs at the fourth character of the
        // key text, where the shortest tag has already ended in a colon.
        assert(k1.text()[3] == k2.text()[3]);
        assert(k1.text()[3] == (k1.algorithm.tag_spec() + seq![CH_COLON] + k1.digest@)[3]);
        assert(k2.text()[3] == (k2.algorithm.tag_spec() + seq![CH_COLON] + k2.digest@)[3]);
        match k1.algorithm {
            Algorithm::Md5 => {
                assert(k1.text()[3] == CH_COLON);
            },
            Algorithm::Sha1 => {
                assert(k1.text()[3] == CH_1);
            },
            Algorithm::Sha256 => {
                assert(k1.text()[3] == CH_2);
            },
            Algorithm::Sha384 => {
                assert(k1.text()[3] == CH_3);
            },
            Algorithm::Sha512 => {
                assert(k1.text()[3] == CH_5);
            },
        }
        match k2.algorithm {
            Algorithm::Md5 => {
                assert(k2.text()[3] == CH_COLON);
            },
            Algorithm::Sha1 => {
                assert(k2.text()[3] == CH_1);
            },
            Algorithm::Sha256 => {
                assert(k2.text()[3] == CH_2);
            },
            Algorithm::Sha384 => {
                assert(k2.text()[3] == CH_3);
            },
            Algorithm::Sha512 => {
                assert(k2.text()[3] == CH_5);
            },
        }
        // Both digests are hex, so neither text can put a colon or a hex
        // character where the other has a different one; the remaining
        // agreement at index 3 is impossible.
        assert(false);
    }
    let l = k1.algorithm.tag_spec().len() as int;
    assert(k1.digest@ =~= k1.text().skip(l + 1));
    assert(k2.digest@ =~= k2.text().skip(l + 1));
}

/// A key text is made of algorithm letters, digits and a colon alone: every
/// byte stands for itself inside a quoted string.
pub proof fn lemma_key_text_plain(k: ChecksumKey)
    requires
        k.wf(),
    ensures
        crate::jstring::plain(k.text()),
{
    let t = k.text();
    let tl = k.algorithm.tag_spec().len() as int;
    assert forall|i: int| 0 <= i < t.len() implies 32 <= #[trigger] t[i] && t[i] != 34 && t[i]
        != 92 by {
        if i < tl {
            assert(t[i] == k.algorithm.tag_spec()[i]);
            match k.algorithm {
                Algorithm::Md5 => {},
                Algorithm::Sha1 => {},
                Algorithm::Sha256 => {},
                Algorithm::Sha384 => {},
                Algorithm::Sha512 => {},
            }
        } else if i == tl {
            assert(t[i] == CH_COLON);
        } else {
            assert(t[i] == k.digest@[i - tl - 1]);
            assert(is_hex_digit(k.digest@[i - tl - 1]));
        }
    }
}

/// Parses a checksum key.  Exactly the well-formed keys are accepted: the
/// result is `Some(k)` precisely when `s` reads `algorithm:hexdigest` with a
/// known algorithm tag and a digest of that algorithm's length.
pub fn parse_checksum_key(s: &[u8]) -> (r: Option<ChecksumKey>)
    ensures
        match r {
            Some(k) => k.wf() && k.text() == s@,
            None => forall|k: ChecksumKey| k.wf() ==> k.text() != s@,
        },
{
    if let Some(k) = ChecksumKey::try_parse(s, Algorithm::Md5) {
        return Some(k);
    }
    if let Some(k) = ChecksumKey::try_parse(s, Algorithm::Sha1) {
        return Some(k);
    }
    if let Some(k) = ChecksumKey::try_parse(s, Algorithm::Sha256) {
        return Some(k);
    }
    if let Some(k) = ChecksumKey::try_parse(s, Algorithm::Sha384) {
        return Some(k);
    }
    if let Some(k) = ChecksumKey::try_parse(s, Algorithm::Sha512) {
        return Some(k);
    }
    proof {
        assert forall|k: ChecksumKey| k.wf() implies k.text() != s@ by {
            match k.algorithm {
                Algorithm::Md5 => {},
                Algorithm::Sha1 => {},
                Algorithm::Sha256 => {},
                Algorithm::Sha384 => {},
                Algorithm::Sha512 => {},
            }
        }
    }
    None
}

} // verus!
