//! Character-level helpers shared by the identifier parsers.

use vstd::prelude::*;

verus! {

/// Relies on `String::push`: the character is appended at the end.
#[verifier::external_body]
pub(crate) fn push_char(s: &mut String, c: char)
    ensures
        final(s)@ == old(s)@.push(c),
{
    s.push(c)
}

/// The characters of `s`, in order.
pub fn chars_of(s: &str) -> (r: Vec<char>)
    ensures
        r@ == s@,
{
    let n = s.unicode_len();
    let mut r: Vec<char> = Vec::new();
    let mut i: usize = 0;
    while i < n
        invariant
            n == s@.len(),
            i <= n,
            r@ == s@.subrange(0, i as int),
        decreases n - i,
    {
        r.push(s.get_char(i));
        i = i + 1;
    }
    assert(r@ =~= s@);
    r
}

/// A string holding the characters of `cs`.
pub fn string_of(cs: &[char]) -> (r: String)
    ensures
        r@ == cs@,
{
    let mut r = String::new();
    let mut i: usize = 0;
    while i < cs.len()
        invariant
            i <= cs@.len(),
            r@ == cs@.subrange(0, i as int),
        decreases cs@.len() - i,
    {
        push_char(&mut r, cs[i]);
        assert(cs@.subrange(0, i + 1) =~= cs@.subrange(0, i as int).push(cs@[i as int]));
        i = i + 1;
    }
    assert(r@ =~= cs@);
    r
}

pub open spec fn is_lower(c: char) -> bool {
    'a' <= c && c <= 'z'
}

pub open spec fn is_upper(c: char) -> bool {
    'A' <= c && c <= 'Z'
}

/// `[a-z0-9]`
pub open spec fn is_lower_alnum(c: char) -> bool {
    is_lower(c) || is_digit(c)
}

/// `[a-zA-Z0-9]`
pub open spec fn is_alnum(c: char) -> bool {
    is_lower(c) || is_upper(c) || is_digit(c)
}

pub fn lower_alnum(c: char) -> (r: bool)
    ensures
        r == is_lower_alnum(c),
{
    ('a' <= c && c <= 'z') || ('0' <= c && c <= '9')
}

pub fn alnum(c: char) -> (r: bool)
    ensures
        r == is_alnum(c),
{
    ('a' <= c && c <= 'z') || ('A' <= c && c <= 'Z') || ('0' <= c && c <= '9')
}

/// Finds the first `c` in `cs[from..]`.
pub fn find_char(cs: &[char], from: usize, c: char) -> (r: Option<usize>)
    requires
        from <= cs@.len(),
    ensures
        match r {
            Some(k) => from <= k < cs@.len() && cs@[k as int] == c && forall|j: int|
                from <= j < k ==> cs@[j] != c,
            None => forall|j: int| from <= j < cs@.len() ==> cs@[j] != c,
        },
{
    let mut i: usize = from;
    while i < cs.len()
        invariant
            from <= i <= cs@.len(),
            forall|j: int| from <= j < i ==> cs@[j] != c,
        decreases cs@.len() - i,
    {
        if cs[i] == c {
            return Some(i);
        }
        i = i + 1;
    }
    None
}

/// The parts before and after the first `c` in `s`.
#[verifier::opaque]
pub open spec fn split_first(s: Seq<char>, c: char) -> Option<(Seq<char>, Seq<char>)> {
    if exists|k: int| 0 <= k < s.len() && #[trigger] s[k] == c {
        let k = choose|k: int|
            0 <= k < s.len() && #[trigger] s[k] == c && forall|j: int| 0 <= j < k ==> s[j] != c;
        Some((s.subrange(0, k), s.subrange(k + 1, s.len() as int)))
    } else {
        None
    }
}

pub proof fn lemma_split_first(s: Seq<char>, c: char, k: int)
    requires
        0 <= k < s.len(),
        s[k] == c,
        forall|j: int| 0 <= j < k ==> s[j] != c,
    ensures
        split_first(s, c) == Some((s.subrange(0, k), s.subrange(k + 1, s.len() as int))),
{
    reveal(split_first);
    assert(exists|k: int| 0 <= k < s.len() && #[trigger] s[k] == c);
    let k2 = choose|k2: int|
        0 <= k2 < s.len() && #[trigger] s[k2] == c && forall|j: int| 0 <= j < k2 ==> s[j] != c;
    assert(0 <= k2 < s.len() && s[k2] == c && forall|j: int| 0 <= j < k2 ==> s[j] != c);
    if k2 < k {
        assert(s[k2] != c);
    } else if k2 > k {
        assert(s[k] != c);
    }
}

pub proof fn lemma_split_first_none(s: Seq<char>, c: char)
    requires
        forall|j: int| 0 <= j < s.len() ==> s[j] != c,
    ensures
        split_first(s, c) is None,
{
    reveal(split_first);
}

/// Splits `cs` at its first `c`.
pub fn split_first_exec(cs: &[char], c: char) -> (r: Option<(Vec<char>, Vec<char>)>)
    ensures
        match r {
            Some((a, b)) => split_first(cs@, c) == Some((a@, b@)),
            None => split_first(cs@, c) is None,
        },
{
    match find_char(cs, 0, c) {
        Some(k) => {
            assert(k < cs.len());
            proof {
                lemma_split_first(cs@, c, k as int);
            }
            Some((sub_chars(cs, 0, k), sub_chars(cs, k + 1, cs.len())))
        },
        None => {
            proof {
                lemma_split_first_none(cs@, c);
            }
            None
        },
    }
}

/// What a split at the first `c` yields.
pub proof fn lemma_split_first_parts(s: Seq<char>, c: char)
    ensures
        match split_first(s, c) {
            Some((a, b)) => s == a + seq![c] + b && forall|i: int| 0 <= i < a.len() ==> a[i] != c,
            None => forall|i: int| 0 <= i < s.len() ==> s[i] != c,
        },
{
    reveal(split_first);
    if exists|k: int| 0 <= k < s.len() && #[trigger] s[k] == c {
        let w = choose|k: int| 0 <= k < s.len() && #[trigger] s[k] == c;
        // the first occurrence exists: walk down from a known one
        let k = lemma_first_occurrence(s, c, w);
        lemma_split_first(s, c, k);
        let a = s.subrange(0, k);
        let b = s.subrange(k + 1, s.len() as int);
        assert(s =~= a + seq![c] + b);
        assert forall|i: int| 0 <= i < a.len() implies a[i] != c by {
            assert(a[i] == s[i]);
        }
    } else {
        assert forall|i: int| 0 <= i < s.len() implies s[i] != c by {
            if s[i] == c {
                assert(0 <= i < s.len() && s[i] == c);
            }
        }
    }
}

proof fn lemma_first_occurrence(s: Seq<char>, c: char, w: int) -> (k: int)
    requires
        0 <= w < s.len(),
        s[w] == c,
    ensures
        0 <= k <= w,
        s[k] == c,
        forall|j: int| 0 <= j < k ==> s[j] != c,
    decreases w,
{
    if exists|j: int| 0 <= j < w && #[trigger] s[j] == c {
        let j = choose|j: int| 0 <= j < w && #[trigger] s[j] == c;
        lemma_first_occurrence(s, c, j)
    } else {
        w
    }
}

/// The parts before and after the last `c` in `s`.
#[verifier::opaque]
pub open spec fn split_last(s: Seq<char>, c: char) -> Option<(Seq<char>, Seq<char>)> {
    if exists|k: int| 0 <= k < s.len() && #[trigger] s[k] == c {
        let k = choose|k: int|
            0 <= k < s.len() && #[trigger] s[k] == c && forall|j: int| k < j < s.len() ==> s[j] != c;
        Some((s.subrange(0, k), s.subrange(k + 1, s.len() as int)))
    } else {
        None
    }
}

pub proof fn lemma_split_last(s: Seq<char>, c: char, k: int)
    requires
        0 <= k < s.len(),
        s[k] == c,
        forall|j: int| k < j < s.len() ==> s[j] != c,
    ensures
        split_last(s, c) == Some((s.subrange(0, k), s.subrange(k + 1, s.len() as int))),
{
    reveal(split_last);
    assert(exists|k: int| 0 <= k < s.len() && #[trigger] s[k] == c);
    let k2 = choose|k2: int|
        0 <= k2 < s.len() && #[trigger] s[k2] == c && forall|j: int| k2 < j < s.len() ==> s[j] != c;
    assert(0 <= k2 < s.len() && s[k2] == c && forall|j: int| k2 < j < s.len() ==> s[j] != c);
    if k2 < k {
        assert(s[k] != c);
    } else if k2 > k {
        assert(s[k2] != c);
    }
}

/// Splits `cs` at its last `c`.
pub fn split_last_exec(cs: &[char], c: char) -> (r: Option<(Vec<char>, Vec<char>)>)
    ensures
        match r {
            Some((a, b)) => split_last(cs@, c) == Some((a@, b@)),
            None => split_last(cs@, c) is None,
        },
{
    let n = cs.len();
    let mut i: usize = n;
    while i > 0
        invariant
            i <= n == cs@.len(),
            forall|j: int| i <= j < n ==> cs@[j] != c,
        decreases i,
    {
        if cs[i - 1] == c {
            proof {
                lemma_split_last(cs@, c, i - 1);
            }
            return Some((sub_chars(cs, 0, i - 1), sub_chars(cs, i, n)));
        }
        i = i - 1;
    }
    proof {
        reveal(split_last);
    }
    None
}

/// `__` starts at index `k` of `s`.
pub open spec fn dunder_at(s: Seq<char>, k: int) -> bool {
    0 <= k && k + 1 < s.len() && s[k] == '_' && s[k + 1] == '_'
}

/// The parts before and after the first `__` in `s`.
#[verifier::opaque]
pub open spec fn split_first_dunder(s: Seq<char>) -> Option<(Seq<char>, Seq<char>)> {
    if exists|k: int| #[trigger] dunder_at(s, k) {
        let k = choose|k: int| #[trigger] dunder_at(s, k) && forall|j: int| j < k ==> !dunder_at(s, j);
        Some((s.subrange(0, k), s.subrange(k + 2, s.len() as int)))
    } else {
        None
    }
}

pub proof fn lemma_split_first_dunder(s: Seq<char>, k: int)
    requires
        dunder_at(s, k),
        forall|j: int| j < k ==> !dunder_at(s, j),
    ensures
        split_first_dunder(s) == Some((s.subrange(0, k), s.subrange(k + 2, s.len() as int))),
{
    reveal(split_first_dunder);
    let k2 = choose|k2: int| #[trigger] dunder_at(s, k2) && forall|j: int| j < k2 ==> !dunder_at(s, j);
    assert(dunder_at(s, k2) && forall|j: int| j < k2 ==> !dunder_at(s, j));
    if k2 < k {
        assert(!dunder_at(s, k2));
    } else if k2 > k {
        assert(!dunder_at(s, k));
    }
}

pub proof fn lemma_split_first_dunder_none(s: Seq<char>)
    requires
        no_dunder(s),
    ensures
        split_first_dunder(s) is None,
{
    reveal(split_first_dunder);
}

/// Splits `cs` at its first `__`.
pub fn split_first_dunder_exec(cs: &[char]) -> (r: Option<(Vec<char>, Vec<char>)>)
    ensures
        match r {
            Some((a, b)) => split_first_dunder(cs@) == Some((a@, b@)),
            None => split_first_dunder(cs@) is None,
        },
{
    let n = cs.len();
    let mut i: usize = 0;
    while n > 0 && i < n - 1
        invariant
            n == cs@.len(),
            i <= n,
            forall|j: int| j < i ==> !dunder_at(cs@, j),
        decreases n - i,
    {
        if cs[i] == '_' && cs[i + 1] == '_' {
            proof {
                reveal(split_first_dunder);
                let s = cs@;
                assert(dunder_at(s, i as int));
                let k2 = choose|k: int| #[trigger] dunder_at(s, k) && forall|j: int| j < k ==> !dunder_at(s, j);
                assert(dunder_at(s, k2) && forall|j: int| j < k2 ==> !dunder_at(s, j));
                if k2 > i {
                    assert(!dunder_at(s, i as int));
                }
            }
            return Some((sub_chars(cs, 0, i), sub_chars(cs, i + 2, n)));
        }
        i = i + 1;
    }
    proof {
        reveal(split_first_dunder);
        assert forall|k: int| !#[trigger] dunder_at(cs@, k) by {
            if k >= i {
                assert(!(k + 1 < n as int));
            }
        }
    }
    None
}

pub open spec fn no_dunder(s: Seq<char>) -> bool {
    forall|k: int| !#[trigger] dunder_at(s, k)
}

/// Each `:` becomes `__`.
pub open spec fn escape_colons(s: Seq<char>) -> Seq<char>
    decreases s.len(),
{
    if s.len() == 0 {
        Seq::empty()
    } else {
        (if s[0] == ':' { seq!['_', '_'] } else { seq![s[0]] }) + escape_colons(s.drop_first())
    }
}

/// Each `__`, read from the left, becomes `:`.
pub open spec fn unescape_colons(s: Seq<char>) -> Seq<char>
    decreases s.len(),
{
    if s.len() == 0 {
        Seq::empty()
    } else if s.len() >= 2 && s[0] == '_' && s[1] == '_' {
        seq![':'] + unescape_colons(s.subrange(2, s.len() as int))
    } else {
        seq![s[0]] + unescape_colons(s.drop_first())
    }
}

/// An escaped character other than `/` never holds a `/`, and the first
/// character is `_` exactly when the text starts with `:` or `_`.
pub proof fn lemma_escape_colons_chars(s: Seq<char>)
    ensures
        forall|i: int| 0 <= i < escape_colons(s).len() ==> #[trigger] escape_colons(s)[i] == '_' || s.contains(escape_colons(s)[i]),
        s.len() > 0 ==> escape_colons(s).len() > 0 && (escape_colons(s)[0] == '_' <==> (s[0] == ':' || s[0] == '_')),
    decreases s.len(),
{
    if s.len() > 0 {
        let rest = s.drop_first();
        lemma_escape_colons_chars(rest);
        let h = if s[0] == ':' { seq!['_', '_'] } else { seq![s[0]] };
        let e = escape_colons(s);
        assert(e == h + escape_colons(rest));
        assert forall|i: int| 0 <= i < e.len() implies #[trigger] e[i] == '_' || s.contains(e[i]) by {
            if i >= h.len() {
                let x = escape_colons(rest)[i - h.len()];
                assert(e[i] == x);
                if x != '_' {
                    let j = choose|j: int| 0 <= j < rest.len() && rest[j] == x;
                    assert(s[j + 1] == x);
                }
            } else if s[0] != ':' {
                assert(s[0] == e[i]);
            }
        }
    }
}

/// Unescaping undoes escaping on text with no `__` and no `_` before a `:`.
pub proof fn lemma_unescape_escape(s: Seq<char>)
    requires
        no_dunder(s),
        forall|i: int| 0 <= i < s.len() - 1 && #[trigger] s[i] == '_' ==> s[i + 1] != ':',
    ensures
        unescape_colons(escape_colons(s)) == s,
    decreases s.len(),
{
    if s.len() > 0 {
        let c = s[0];
        let rest = s.drop_first();
        assert forall|k: int| !#[trigger] dunder_at(rest, k) by {
            if dunder_at(rest, k) {
                assert(dunder_at(s, k + 1));
            }
        }
        assert forall|i: int| 0 <= i < rest.len() - 1 && #[trigger] rest[i] == '_' implies rest[i + 1] != ':' by {
            assert(s[i + 1] == '_');
        }
        lemma_unescape_escape(rest);
        lemma_escape_colons_chars(rest);
        let er = escape_colons(rest);
        let e = escape_colons(s);
        if c == ':' {
            assert(e == seq!['_', '_'] + er);
            assert(e.subrange(2, e.len() as int) =~= er);
            assert(unescape_colons(e) =~= seq![':'] + rest);
        } else {
            assert(e == seq![c] + er);
            if c == '_' && rest.len() > 0 {
                assert(!dunder_at(s, 0));
                assert(rest[0] == s[1]);
            }
            assert(!(e.len() >= 2 && e[0] == '_' && e[1] == '_'));
            assert(e.drop_first() =~= er);
            assert(unescape_colons(e) =~= seq![c] + rest);
        }
        assert(seq![c] + rest =~= s);
    }
}

proof fn lemma_escape_colons_push(s: Seq<char>, c: char)
    ensures
        escape_colons(s.push(c)) == escape_colons(s) + (if c == ':' {
            seq!['_', '_']
        } else {
            seq![c]
        }),
    decreases s.len(),
{
    let t = if c == ':' { seq!['_', '_'] } else { seq![c] };
    if s.len() == 0 {
        assert(s.push(c).drop_first() =~= Seq::<char>::empty());
        assert(s.push(c)[0] == c);
        assert(escape_colons(Seq::<char>::empty()) =~= Seq::<char>::empty());
        assert(escape_colons(s.push(c)) =~= escape_colons(s) + t);
    } else {
        assert(s.push(c)[0] == s[0]);
        lemma_escape_colons_push(s.drop_first(), c);
        assert(s.push(c).drop_first() =~= s.drop_first().push(c));
        assert(escape_colons(s.push(c)) =~= escape_colons(s) + t);
    }
}

/// Appends `cs` to `out` with each `:` written as `__`.
pub fn push_escaped_colons(out: &mut String, cs: &[char])
    ensures
        final(out)@ == old(out)@ + escape_colons(cs@),
{
    let ghost start = out@;
    let mut i: usize = 0;
    assert(cs@.subrange(0, 0) =~= Seq::<char>::empty());
    while i < cs.len()
        invariant
            i <= cs@.len(),
            out@ == start + escape_colons(cs@.subrange(0, i as int)),
        decreases cs@.len() - i,
    {
        let c = cs[i];
        proof {
            lemma_escape_colons_push(cs@.subrange(0, i as int), c);
            assert(cs@.subrange(0, i + 1) =~= cs@.subrange(0, i as int).push(c));
        }
        if c == ':' {
            push_char(out, '_');
            push_char(out, '_');
        } else {
            push_char(out, c);
        }
        i = i + 1;
    }
    assert(cs@.subrange(0, cs@.len() as int) =~= cs@);
}

/// `cs[from..]` with each `__`, read from the left, written as `:`.
pub fn unescape_colons_exec(cs: &[char], from: usize) -> (r: Vec<char>)
    requires
        from <= cs@.len(),
    ensures
        r@ == unescape_colons(cs@.subrange(from as int, cs@.len() as int)),
{
    let n = cs.len();
    let mut r: Vec<char> = Vec::new();
    let mut i: usize = from;
    while i < n
        invariant
            from <= i <= n == cs@.len(),
            r@ + unescape_colons(cs@.subrange(i as int, n as int)) == unescape_colons(
                cs@.subrange(from as int, n as int),
            ),
        decreases n - i,
    {
        let ghost t = cs@.subrange(i as int, n as int);
        if i + 1 < n && cs[i] == '_' && cs[i + 1] == '_' {
            assert(t.subrange(2, t.len() as int) =~= cs@.subrange(i + 2, n as int));
            r.push(':');
            i = i + 2;
        } else {
            assert(t.drop_first() =~= cs@.subrange(i + 1, n as int));
            r.push(cs[i]);
            i = i + 1;
        }
    }
    assert(cs@.subrange(n as int, n as int) =~= Seq::<char>::empty());
    assert(r@ + Seq::<char>::empty() =~= r@);
    r
}

/// Whether `cs` starts with `p`.
pub fn has_prefix(cs: &[char], p: &[char]) -> (r: bool)
    ensures
        r == (p@.len() <= cs@.len() && cs@.subrange(0, p@.len() as int) == p@),
{
    if p.len() > cs.len() {
        return false;
    }
    let mut i: usize = 0;
    while i < p.len()
        invariant
            p@.len() <= cs@.len(),
            i <= p@.len(),
            forall|j: int| 0 <= j < i ==> cs@[j] == p@[j],
        decreases p@.len() - i,
    {
        if cs[i] != p[i] {
            assert(cs@.subrange(0, p@.len() as int)[i as int] != p@[i as int]);
            return false;
        }
        i = i + 1;
    }
    assert(cs@.subrange(0, p@.len() as int) =~= p@);
    true
}

/// A copy of `cs[lo..hi]`.
pub fn sub_chars(cs: &[char], lo: usize, hi: usize) -> (r: Vec<char>)
    requires
        lo <= hi <= cs@.len(),
    ensures
        r@ == cs@.subrange(lo as int, hi as int),
{
    let mut r: Vec<char> = Vec::new();
    let mut i: usize = lo;
    while i < hi
        invariant
            lo <= i <= hi <= cs@.len(),
            r@ == cs@.subrange(lo as int, i as int),
        decreases hi - i,
    {
        r.push(cs[i]);
        assert(cs@.subrange(lo as int, i + 1) =~= cs@.subrange(lo as int, i as int).push(cs@[i as int]));
        i = i + 1;
    }
    r
}

pub open spec fn is_digit(c: char) -> bool {
    '0' <= c && c <= '9'
}

pub open spec fn digit_value(c: char) -> nat {
    (c as u32 - '0' as u32) as nat
}

/// The character of a decimal digit `d < 10`.
pub open spec fn digit_char(d: nat) -> char {
    seq!['0', '1', '2', '3', '4', '5', '6', '7', '8', '9'][d as int]
}

/// The number that a string of decimal digits denotes.
pub open spec fn decimal_value(s: Seq<char>) -> nat
    decreases s.len(),
{
    if s.len() == 0 {
        0
    } else {
        decimal_value(s.drop_last()) * 10 + digit_value(s.last())
    }
}

/// The shortest decimal text of `n`.
pub open spec fn decimal_of(n: nat) -> Seq<char>
    decreases n,
{
    if n < 10 {
        seq![digit_char(n)]
    } else {
        decimal_of(n / 10).push(digit_char(n % 10))
    }
}

pub open spec fn all_digits(s: Seq<char>) -> bool {
    forall|i: int| 0 <= i < s.len() ==> is_digit(#[trigger] s[i])
}

/// A port number as `u16::from_str` reads it: an optional `+`, then one or
/// more decimal digits whose value fits in 16 bits.
pub open spec fn parse_port(s: Seq<char>) -> Option<u16> {
    let body = if s.len() > 0 && s[0] == '+' { s.drop_first() } else { s };
    if body.len() > 0 && all_digits(body) && decimal_value(body) <= 65535 {
        Some(decimal_value(body) as u16)
    } else {
        None
    }
}

pub proof fn lemma_digit_char(d: nat)
    requires
        d < 10,
    ensures
        is_digit(digit_char(d)),
        digit_value(digit_char(d)) == d,
        digit_char(d) != '+',
{
    reveal_with_fuel(decimal_of, 1);
}

/// The decimal text of `n` is made of digits and denotes `n`.
pub proof fn lemma_decimal_of(n: nat)
    ensures
        decimal_of(n).len() > 0,
        all_digits(decimal_of(n)),
        decimal_value(decimal_of(n)) == n,
        decimal_of(n)[0] != '+',
    decreases n,
{
    if n < 10 {
        lemma_digit_char(n);
        let s = decimal_of(n);
        assert(s.drop_last() =~= Seq::<char>::empty());
        assert(decimal_value(s) == decimal_value(s.drop_last()) * 10 + digit_value(s.last()));
    } else {
        lemma_decimal_of(n / 10);
        lemma_digit_char(n % 10);
        let s = decimal_of(n);
        assert(s.drop_last() =~= decimal_of(n / 10));
        assert forall|i: int| 0 <= i < s.len() implies is_digit(#[trigger] s[i]) by {
            if i < s.len() - 1 {
                assert(s[i] == decimal_of(n / 10)[i]);
            }
        }
        assert(decimal_value(s) == decimal_value(decimal_of(n / 10)) * 10 + digit_value(
            digit_char(n % 10),
        ));
        assert(n == (n / 10) * 10 + n % 10) by (nonlinear_arith);
    }
}

/// Reading back the decimal text of a port gives the port.
pub proof fn lemma_parse_port_decimal(p: u16)
    ensures
        parse_port(decimal_of(p as nat)) == Some(p),
{
    lemma_decimal_of(p as nat);
}

fn digit_char_exec(d: u16) -> (c: char)
    requires
        d < 10,
    ensures
        c == digit_char(d as nat),
{
    match d {
        0 => '0',
        1 => '1',
        2 => '2',
        3 => '3',
        4 => '4',
        5 => '5',
        6 => '6',
        7 => '7',
        8 => '8',
        _ => '9',
    }
}

/// The shortest decimal text of a port number.
pub fn port_to_string(p: u16) -> (r: String)
    ensures
        r@ == decimal_of(p as nat),
{
    let mut digits: Vec<char> = Vec::new();
    let mut n: u16 = p;
    // digits holds the low-order digits of p, most significant last
    while n >= 10
        invariant
            decimal_of(p as nat) == decimal_of(n as nat) + digits@.reverse(),
        decreases n,
    {
        let ghost before = digits@;
        digits.push(digit_char_exec(n % 10));
        assert(decimal_of(n as nat) == decimal_of((n / 10) as nat).push(digit_char((n % 10) as nat)));
        assert(digits@.reverse() =~= seq![digit_char((n % 10) as nat)] + before.reverse());
        n = n / 10;
    }
    digits.push(digit_char_exec(n));
    let mut r = String::new();
    let mut i: usize = digits.len();
    assert(decimal_of(n as nat) == seq![digit_char(n as nat)]);
    assert(digits@.reverse() =~= seq![digit_char(n as nat)] + digits@.drop_last().reverse());
    while i > 0
        invariant
            i <= digits@.len(),
            decimal_of(p as nat) == digits@.reverse(),
            r@ == digits@.reverse().subrange(0, digits@.len() - i),
        decreases i,
    {
        i = i - 1;
        push_char(&mut r, digits[i]);
        assert(digits@.reverse().subrange(0, digits@.len() - i) =~= digits@.reverse().subrange(
            0,
            digits@.len() - i - 1,
        ).push(digits@[i as int]));
    }
    assert(digits@.reverse().subrange(0, digits@.len() as int) =~= digits@.reverse());
    r
}

/// Reads a port number from `cs[from..]` as `u16::from_str` does.
pub fn parse_port_chars(cs: &[char], from: usize) -> (r: Option<u16>)
    requires
        from <= cs@.len(),
    ensures
        r == parse_port(cs@.subrange(from as int, cs@.len() as int)),
{
    let ghost s = cs@.subrange(from as int, cs@.len() as int);
    let mut i: usize = from;
    if i < cs.len() && cs[i] == '+' {
        i = i + 1;
    }
    let ghost body = cs@.subrange(i as int, cs@.len() as int);
    assert(body =~= (if s.len() > 0 && s[0] == '+' { s.drop_first() } else { s }));
    if i >= cs.len() {
        assert(parse_port(s) == None::<u16>);
        return None;
    }
    let start = i;
    let mut v: u32 = 0;
    while i < cs.len()
        invariant
            start <= i <= cs@.len(),
            from <= cs@.len(),
            s == cs@.subrange(from as int, cs@.len() as int),
            body == cs@.subrange(start as int, cs@.len() as int),
            body == (if s.len() > 0 && s[0] == '+' { s.drop_first() } else { s }),
            all_digits(cs@.subrange(start as int, i as int)),
            v as nat == decimal_value(cs@.subrange(start as int, i as int)),
            v <= 65535,
        decreases cs@.len() - i,
    {
        let c = cs[i];
        let ghost pre = cs@.subrange(start as int, i as int);
        let ghost next = cs@.subrange(start as int, i + 1);
        assert(next.drop_last() =~= pre);
        if !('0' <= c && c <= '9') {
            assert(body[i - start] == c);
            assert(!all_digits(body));
            assert(parse_port(s) == None::<u16>);
            return None;
        }
        let d = (c as u32) - ('0' as u32);
        assert(all_digits(next)) by {
            assert forall|j: int| 0 <= j < next.len() implies is_digit(#[trigger] next[j]) by {
                if j < pre.len() {
                    assert(next[j] == pre[j]);
                }
            }
        }
        if v > 6553 || (v == 6553 && d > 5) {
            assert(decimal_value(next) > 65535);
            // every longer run of digits is at least as large
            proof {
                lemma_decimal_grows(body, (i + 1 - start) as int);
                assert(body.subrange(0, (i + 1 - start) as int) =~= next);
            }
            assert(parse_port(s) == None::<u16>);
            return None;
        }
        v = v * 10 + d;
        i = i + 1;
    }
    assert(cs@.subrange(start as int, i as int) =~= body);
    Some(v as u16)
}

/// Extending a run of digits never makes its value smaller.
proof fn lemma_decimal_grows(s: Seq<char>, k: int)
    requires
        0 <= k <= s.len(),
    ensures
        decimal_value(s.subrange(0, k)) <= decimal_value(s) || !all_digits(s),
    decreases s.len() - k,
{
    if k < s.len() {
        lemma_decimal_grows(s, k + 1);
        let a = s.subrange(0, k);
        let b = s.subrange(0, k + 1);
        assert(b.drop_last() =~= a);
        assert(decimal_value(a) <= decimal_value(b));
    } else {
        assert(s.subrange(0, k) =~= s);
    }
}

} // verus!
