//! Content addresses of blobs.

use vstd::prelude::*;

use crate::error::Error;
use crate::text::{chars_of, find_char, is_alnum, is_lower_alnum, lower_alnum, alnum, push_char, string_of, sub_chars};
use sha2::Digest as _;

verus! {

/// `[+._-]`, between the components of an algorithm.
pub open spec fn is_algorithm_separator(c: char) -> bool {
    c == '+' || c == '.' || c == '_' || c == '-'
}

/// `algorithm ::= [a-z0-9]+ ([+._-] [a-z0-9]+)*`
pub open spec fn valid_algorithm(s: Seq<char>) -> bool {
    &&& s.len() > 0
    &&& is_lower_alnum(s[0])
    &&& is_lower_alnum(s.last())
    &&& forall|i: int|
        0 <= i < s.len() ==> is_lower_alnum(#[trigger] s[i]) || is_algorithm_separator(s[i])
    &&& forall|i: int|
        0 <= i < s.len() - 1 && is_algorithm_separator(#[trigger] s[i]) ==> is_lower_alnum(s[i + 1])
}

/// `[a-zA-Z0-9=_-]`
pub open spec fn is_encoded_char(c: char) -> bool {
    is_alnum(c) || c == '=' || c == '_' || c == '-'
}

/// `encoded ::= [a-zA-Z0-9=_-]+`
pub open spec fn valid_encoded(s: Seq<char>) -> bool {
    s.len() > 0 && forall|i: int| 0 <= i < s.len() ==> is_encoded_char(#[trigger] s[i])
}

/// `digest ::= algorithm ":" encoded`
pub open spec fn valid_digest(s: Seq<char>) -> bool {
    exists|k: int|
        0 <= k < s.len() && #[trigger] s[k] == ':' && valid_algorithm(s.subrange(0, k))
            && valid_encoded(s.subrange(k + 1, s.len() as int))
}

/// The lowercase hexadecimal digit of a nibble.
pub open spec fn hex_digit(d: u8) -> char {
    seq!['0', '1', '2', '3', '4', '5', '6', '7', '8', '9', 'a', 'b', 'c', 'd', 'e', 'f'][d as int]
}

/// Two lowercase hexadecimal digits per byte, high nibble first.
pub open spec fn hex_lower(b: Seq<u8>) -> Seq<char>
    decreases b.len(),
{
    if b.len() == 0 {
        Seq::empty()
    } else {
        hex_lower(b.drop_last()) + seq![hex_digit(b.last() / 16), hex_digit(b.last() % 16)]
    }
}

/// The SHA-256 hash of a byte sequence.
pub uninterp spec fn sha256_of(b: Seq<u8>) -> Seq<u8>;

/// Relies on `sha2::Sha256::digest`: the 32-byte SHA-256 hash of the input.
#[verifier::external_body]
fn sha256(b: &[u8]) -> (r: Vec<u8>)
    ensures
        r@ == sha256_of(b@),
        r@.len() == 32,
{
    sha2::Sha256::digest(b).to_vec()
}

/// Relies on `base16ct::lower::encode_string`: lowercase hex, high nibble first.
#[verifier::external_body]
fn encode_hex(b: &[u8]) -> (r: String)
    requires
        b@.len() <= usize::MAX / 2,
    ensures
        r@ == hex_lower(b@),
{
    base16ct::lower::encode_string(b)
}

/// Digest of contents, `algorithm:encoded`.
#[derive(Debug, Clone, PartialEq, Eq, Hash)]
pub struct Digest {
    pub algorithm: String,
    pub encoded: String,
}

impl Digest {
    /// Both parts follow the digest grammar.
    pub open spec fn wf(&self) -> bool {
        valid_algorithm(self.algorithm@) && valid_encoded(self.encoded@)
    }

    /// The textual form `algorithm:encoded`.
    pub open spec fn text(&self) -> Seq<char> {
        self.algorithm@ + seq![':'] + self.encoded@
    }

    /// The blob's place in an image layout, `blobs/<algorithm>/<encoded>`.
    pub open spec fn path(&self) -> Seq<char> {
        "blobs/"@ + self.algorithm@ + "/"@ + self.encoded@
    }

    /// Parses `algorithm:encoded`.
    pub fn new(input: &str) -> (r: Result<Digest, Error>)
        ensures
            match r {
                Ok(d) => valid_digest(input@) && d.wf() && d.text() == input@,
                Err(e) => !valid_digest(input@) && e.is_invalid_digest(input@),
            },
    {
        let cs = chars_of(input);
        match parse_digest_chars(&cs) {
            Some(d) => Ok(d),
            None => Err(Error::InvalidDigest(input.to_owned())),
        }
    }

    pub fn as_path(&self) -> (r: String)
        ensures
            r@ == self.path(),
    {
        let mut r = String::from_str("blobs/");
        r.append(self.algorithm.as_str());
        r.append("/");
        r.append(self.encoded.as_str());
        r
    }

    /// The textual form `algorithm:encoded`.
    pub fn to_string(&self) -> (r: String)
        ensures
            r@ == self.text(),
    {
        let mut r = self.algorithm.clone();
        push_char(&mut r, ':');
        r.append(self.encoded.as_str());
        r
    }

    /// The SHA-256 digest of `buf`, `sha256:<lowercase hex>`.
    pub fn from_buf_sha256(buf: &[u8]) -> (r: Digest)
        ensures
            r.algorithm@ == "sha256"@,
            r.encoded@ == hex_lower(sha256_of(buf@)),
            r.encoded@.len() == 64,
            r.wf(),
    {
        let hash = sha256(buf);
        let encoded = encode_hex(hash.as_slice());
        proof {
            lemma_hex_lower(hash@);
            reveal_strlit("sha256");
            assert("sha256"@[0] == 's');
        }
        Digest { algorithm: String::from_str("sha256"), encoded }
    }

    /// A copy with the same parts.
    pub fn duplicate(&self) -> (r: Digest)
        ensures
            r == *self,
    {
        Digest { algorithm: self.algorithm.clone(), encoded: self.encoded.clone() }
    }

    /// Whether the two digests have the same parts.
    pub fn same(&self, other: &Digest) -> (r: bool)
        ensures
            r == (self.algorithm@ == other.algorithm@ && self.encoded@ == other.encoded@),
    {
        self.algorithm == other.algorithm && self.encoded == other.encoded
    }
}

/// Hex text has two characters per byte, each a lowercase hex digit.
pub proof fn lemma_hex_lower(b: Seq<u8>)
    ensures
        hex_lower(b).len() == 2 * b.len(),
        forall|i: int|
            0 <= i < hex_lower(b).len() ==> is_lower_alnum(#[trigger] hex_lower(b)[i]),
    decreases b.len(),
{
    if b.len() > 0 {
        lemma_hex_lower(b.drop_last());
        let h = hex_lower(b);
        let p = hex_lower(b.drop_last());
        assert(b.last() / 16 < 16 && b.last() % 16 < 16);
        assert forall|i: int| 0 <= i < h.len() implies is_lower_alnum(#[trigger] h[i]) by {
            if i < p.len() {
                assert(h[i] == p[i]);
            } else {
                let d = if i == p.len() { b.last() / 16 } else { b.last() % 16 };
                assert(h[i] == hex_digit(d));
            }
        }
    }
}

fn check_algorithm(s: &[char]) -> (r: bool)
    ensures
        r == valid_algorithm(s@),
{
    let n = s.len();
    if n == 0 {
        return false;
    }
    if !lower_alnum(s[0]) || !lower_alnum(s[n - 1]) {
        return false;
    }
    let mut i: usize = 0;
    while i < n
        invariant
            n == s@.len(),
            i <= n,
            forall|j: int|
                0 <= j < i ==> is_lower_alnum(#[trigger] s@[j]) || is_algorithm_separator(s@[j]),
            forall|j: int|
                0 <= j < i && j < n - 1 && is_algorithm_separator(#[trigger] s@[j])
                    ==> is_lower_alnum(s@[j + 1]),
        decreases n - i,
    {
        let c = s[i];
        let sep = c == '+' || c == '.' || c == '_' || c == '-';
        if !lower_alnum(c) && !sep {
            return false;
        }
        if sep && i + 1 < n && !lower_alnum(s[i + 1]) {
            return false;
        }
        i = i + 1;
    }
    true
}

fn check_encoded(s: &[char]) -> (r: bool)
    ensures
        r == valid_encoded(s@),
{
    let n = s.len();
    if n == 0 {
        return false;
    }
    let mut i: usize = 0;
    while i < n
        invariant
            n == s@.len(),
            i <= n,
            forall|j: int| 0 <= j < i ==> is_encoded_char(#[trigger] s@[j]),
        decreases n - i,
    {
        let c = s[i];
        if !(alnum(c) || c == '=' || c == '_' || c == '-') {
            return false;
        }
        i = i + 1;
    }
    true
}

/// Parses a digest from its characters.
pub fn parse_digest_chars(cs: &[char]) -> (r: Option<Digest>)
    ensures
        match r {
            Some(d) => valid_digest(cs@) && d.wf() && d.text() == cs@,
            None => !valid_digest(cs@),
        },
{
    let n = cs.len();
    match find_char(cs, 0, ':') {
        None => {
            assert forall|k: int| 0 <= k < n implies !(#[trigger] cs@[k] == ':') by {}
            None
        },
        Some(k) => {
            let alg = sub_chars(cs, 0, k);
            let enc = sub_chars(cs, k + 1, n);
            let ok_alg = check_algorithm(alg.as_slice());
            let ok_enc = check_encoded(enc.as_slice());
            proof {
                // the first colon is the only place a valid split can stand
                assert forall|k2: int|
                    0 <= k2 < n && #[trigger] cs@[k2] == ':' && valid_algorithm(cs@.subrange(0, k2))
                        && valid_encoded(cs@.subrange(k2 + 1, n as int)) implies k2 == k by {
                    if k2 > k {
                        let a2 = cs@.subrange(0, k2);
                        assert(a2[k as int] == ':');
                    }
                }
            }
            if ok_alg && ok_enc {
                let d = Digest { algorithm: string_of(alg.as_slice()), encoded: string_of(enc.as_slice()) };
                assert(d.text() =~= cs@);
                Some(d)
            } else {
                None
            }
        },
    }
}

} // verus!
