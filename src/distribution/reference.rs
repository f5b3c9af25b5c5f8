//! References: tags and digests that select a manifest.

use vstd::prelude::*;

use crate::digest::{parse_digest_chars, valid_algorithm, valid_digest, valid_encoded};
use crate::error::Error;
use crate::text::{alnum, chars_of, is_alnum, is_digit, is_upper, push_char};

verus! {

/// `[a-zA-Z0-9_][a-zA-Z0-9._-]{0,127}`
pub open spec fn valid_tag(s: Seq<char>) -> bool {
    &&& 1 <= s.len() <= 128
    &&& is_alnum(s[0]) || s[0] == '_'
    &&& forall|i: int|
        0 <= i < s.len() ==> is_alnum(#[trigger] s[i]) || s[i] == '.' || s[i] == '_' || s[i] == '-'
}

/// A reference is a tag or a digest.
pub open spec fn valid_reference(s: Seq<char>) -> bool {
    valid_tag(s) || valid_digest(s)
}

/// The uppercase hexadecimal digit of a nibble.
pub open spec fn hex_upper(d: int) -> char {
    seq!['0', '1', '2', '3', '4', '5', '6', '7', '8', '9', 'A', 'B', 'C', 'D', 'E', 'F'][d]
}

/// Uppercase letters and `:` become `%XX`; other characters stay.
pub open spec fn encode_char(c: char) -> Seq<char> {
    if is_upper(c) || c == ':' {
        seq!['%', hex_upper(c as int / 16), hex_upper(c as int % 16)]
    } else {
        seq![c]
    }
}

pub open spec fn percent_encoded(s: Seq<char>) -> Seq<char>
    decreases s.len(),
{
    if s.len() == 0 {
        Seq::empty()
    } else {
        encode_char(s[0]) + percent_encoded(s.drop_first())
    }
}

/// The value of a hexadecimal digit, either case.
pub open spec fn hex_value(c: char) -> int {
    if is_digit(c) {
        c as int - '0' as int
    } else if 'A' <= c && c <= 'F' {
        c as int - 'A' as int + 10
    } else {
        c as int - 'a' as int + 10
    }
}

pub open spec fn is_hex_digit(c: char) -> bool {
    is_digit(c) || ('A' <= c && c <= 'F') || ('a' <= c && c <= 'f')
}

pub open spec fn char_code(c: char) -> int {
    c as int
}

/// Percent-decoding of ASCII text: each `%XY` with two hexadecimal digits is
/// the character of code `0xXY`; every other character stands for itself.
pub open spec fn percent_decoded(s: Seq<char>) -> Seq<char>
    decreases s.len(),
{
    if s.len() == 0 {
        Seq::empty()
    } else if s.len() >= 3 && s[0] == '%' && is_hex_digit(s[1]) && is_hex_digit(s[2]) {
        seq![(choose|c: char| #[trigger] char_code(c) == hex_value(s[1]) * 16 + hex_value(s[2]))]
            + percent_decoded(s.subrange(3, s.len() as int))
    } else {
        seq![s[0]] + percent_decoded(s.drop_first())
    }
}

/// Reference of an image within a repository: a tag or a digest.
#[derive(Debug, Clone, PartialEq, Eq, Hash)]
pub struct Reference(String);

impl View for Reference {
    type V = Seq<char>;

    closed spec fn view(&self) -> Seq<char> {
        self.0@
    }
}

fn check_tag(s: &[char]) -> (r: bool)
    ensures
        r == valid_tag(s@),
{
    let n = s.len();
    if n == 0 || n > 128 {
        return false;
    }
    if !(alnum(s[0]) || s[0] == '_') {
        return false;
    }
    let mut i: usize = 0;
    while i < n
        invariant
            n == s@.len(),
            i <= n,
            forall|j: int|
                0 <= j < i ==> is_alnum(#[trigger] s@[j]) || s@[j] == '.' || s@[j] == '_' || s@[j] == '-',
        decreases n - i,
    {
        let c = s[i];
        if !(alnum(c) || c == '.' || c == '_' || c == '-') {
            return false;
        }
        i = i + 1;
    }
    true
}

fn hex_upper_exec(d: u32) -> (c: char)
    requires
        d < 16,
    ensures
        c == hex_upper(d as int),
{
    match d {
        0 => '0',
        1 => '1',
        2 => '2',
        3 => '3',
        4 => '4',
        5 => '5',
        6 => '6',
        7 => '7',
        8 => '8',
        9 => '9',
        10 => 'A',
        11 => 'B',
        12 => 'C',
        13 => 'D',
        14 => 'E',
        _ => 'F',
    }
}

proof fn lemma_percent_encoded_push(s: Seq<char>, c: char)
    ensures
        percent_encoded(s.push(c)) == percent_encoded(s) + encode_char(c),
    decreases s.len(),
{
    if s.len() == 0 {
        assert(s.push(c).drop_first() =~= Seq::<char>::empty());
        assert(percent_encoded(Seq::<char>::empty()) == Seq::<char>::empty());
        assert(percent_encoded(s.push(c)) =~= encode_char(c));
    } else {
        lemma_percent_encoded_push(s.drop_first(), c);
        assert(s.push(c).drop_first() =~= s.drop_first().push(c));
        assert(percent_encoded(s.push(c)) =~= percent_encoded(s) + encode_char(c));
    }
}

impl Reference {
    pub open spec fn wf(&self) -> bool {
        valid_reference(self@)
    }

    pub fn as_str(&self) -> (r: &str)
        ensures
            r@ == self@,
    {
        self.0.as_str()
    }

    /// Accepts a tag, or a digest.
    pub fn new(name: &str) -> (r: Result<Reference, Error>)
        ensures
            match r {
                Ok(x) => valid_reference(name@) && x@ == name@ && x.wf(),
                Err(e) => !valid_reference(name@) && e.is_invalid_reference(name@),
            },
    {
        let cs = chars_of(name);
        if check_tag(cs.as_slice()) {
            return Ok(Reference(name.to_owned()));
        }
        match parse_digest_chars(cs.as_slice()) {
            Some(_) => Ok(Reference(name.to_owned())),
            None => Err(Error::InvalidReference(name.to_owned())),
        }
    }

    /// Encodes uppercase letters and `:` as `%XX`, e.g. `A` becomes `%41`.
    pub fn encoded(&self) -> (r: String)
        ensures
            r@ == percent_encoded(self@),
    {
        let cs = chars_of(self.0.as_str());
        let mut r = String::new();
        let mut i: usize = 0;
        assert(cs@.subrange(0, 0) =~= Seq::<char>::empty());
        while i < cs.len()
            invariant
                i <= cs@.len(),
                cs@ == self@,
                r@ == percent_encoded(cs@.subrange(0, i as int)),
            decreases cs@.len() - i,
        {
            let c = cs[i];
            proof {
                lemma_percent_encoded_push(cs@.subrange(0, i as int), c);
                assert(cs@.subrange(0, i + 1) =~= cs@.subrange(0, i as int).push(c));
            }
            if ('A' <= c && c <= 'Z') || c == ':' {
                let code = c as u32;
                push_char(&mut r, '%');
                push_char(&mut r, hex_upper_exec(code / 16));
                push_char(&mut r, hex_upper_exec(code % 16));
            } else {
                push_char(&mut r, c);
            }
            i = i + 1;
        }
        assert(cs@.subrange(0, cs@.len() as int) =~= cs@);
        r
    }

    /// A copy with the same text.
    pub fn duplicate(&self) -> (r: Reference)
        ensures
            r@ == self@,
    {
        Reference(self.0.clone())
    }
}

proof fn lemma_hex_upper(d: int)
    requires
        0 <= d < 16,
    ensures
        is_hex_digit(hex_upper(d)),
        hex_value(hex_upper(d)) == d,
{
}

/// Percent-decoding the encoded form of a reference gives the reference back.
pub proof fn lemma_reference_encoding_round_trip(r: Reference)
    requires
        r.wf(),
    ensures
        percent_decoded(percent_encoded(r@)) == r@,
{
    let s = r@;
    assert forall|i: int| 0 <= i < s.len() implies #[trigger] s[i] != '%' by {
        if !valid_tag(s) {
            let k = choose|k: int|
                0 <= k < s.len() && #[trigger] s[k] == ':' && valid_algorithm(s.subrange(0, k))
                    && valid_encoded(s.subrange(k + 1, s.len() as int));
            if i < k {
                assert(s.subrange(0, k)[i] == s[i]);
            } else if i > k {
                assert(s.subrange(k + 1, s.len() as int)[i - k - 1] == s[i]);
            }
        }
    }
    lemma_no_percent_round_trip(s);
}

proof fn lemma_no_percent_round_trip(s: Seq<char>)
    requires
        forall|i: int| 0 <= i < s.len() ==> #[trigger] s[i] != '%',
    ensures
        percent_decoded(percent_encoded(s)) == s,
    decreases s.len(),
{
    if s.len() > 0 {
        let c = s[0];
        let rest = s.drop_first();
        assert forall|i: int| 0 <= i < rest.len() implies #[trigger] rest[i] != '%' by {
            assert(rest[i] == s[i + 1]);
        }
        lemma_no_percent_round_trip(rest);
        let e = percent_encoded(s);
        assert(e == encode_char(c) + percent_encoded(rest));
        if is_upper(c) || c == ':' {
            let hi = c as int / 16;
            let lo = c as int % 16;
            lemma_hex_upper(hi);
            lemma_hex_upper(lo);
            assert(e[0] == '%' && e[1] == hex_upper(hi) && e[2] == hex_upper(lo));
            assert(e.subrange(3, e.len() as int) =~= percent_encoded(rest));
            let d = choose|d: char| #[trigger] char_code(d) == hex_value(e[1]) * 16 + hex_value(e[2]);
            assert(char_code(c) == hex_value(e[1]) * 16 + hex_value(e[2]));
            assert(c as int == hex_value(e[1]) * 16 + hex_value(e[2]));
            assert(d == c);
            assert(percent_decoded(e) =~= seq![c] + rest);
        } else {
            assert(e[0] == c);
            assert(e.drop_first() =~= percent_encoded(rest));
            assert(percent_decoded(e) =~= seq![c] + rest);
        }
        assert(seq![c] + rest =~= s);
    }
}

} // verus!
