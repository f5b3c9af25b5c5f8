//! Credentials for registries and the bearer-token challenge.

use vstd::prelude::*;

use base64::Engine as _;
use crate::error::Error;
use crate::text::{
    chars_of, push_char, split_first, split_first_exec, string_of,
};

verus! {

/// `v` without its leading `"` characters.
pub open spec fn trim_leading_quotes(v: Seq<char>) -> Seq<char>
    decreases v.len(),
{
    if v.len() > 0 && v[0] == '"' {
        trim_leading_quotes(v.drop_first())
    } else {
        v
    }
}

/// `v` without its trailing `"` characters.
pub open spec fn trim_trailing_quotes(v: Seq<char>) -> Seq<char>
    decreases v.len(),
{
    if v.len() > 0 && v.last() == '"' {
        trim_trailing_quotes(v.drop_last())
    } else {
        v
    }
}

/// `v` without quotes at either end, as `str::trim_matches('"')` leaves it.
pub open spec fn trim_quotes(v: Seq<char>) -> Seq<char> {
    trim_trailing_quotes(trim_leading_quotes(v))
}

/// The pieces of `s` between commas; there is always at least one.
pub open spec fn comma_pieces(s: Seq<char>) -> Seq<Seq<char>>
    decreases s.len(),
{
    if s.len() == 0 {
        seq![Seq::empty()]
    } else {
        let p = comma_pieces(s.drop_last());
        if s.last() == ',' {
            p.push(Seq::empty())
        } else {
            p.update(p.len() - 1, p.last().push(s.last()))
        }
    }
}

/// The realm, service and scope that a list of `key=value` pieces sets, the
/// last setting of a key winning; `None` if a piece has no `=`.
pub open spec fn challenge_params(ps: Seq<Seq<char>>) -> Option<
    (Option<Seq<char>>, Option<Seq<char>>, Option<Seq<char>>),
>
    decreases ps.len(),
{
    if ps.len() == 0 {
        Some((None, None, None))
    } else {
        match challenge_params(ps.drop_last()) {
            None => None,
            Some((realm, service, scope)) => match split_first(ps.last(), '=') {
                None => None,
                Some((k, v)) => if k == "realm"@ {
                    Some((Some(trim_quotes(v)), service, scope))
                } else if k == "service"@ {
                    Some((realm, Some(trim_quotes(v)), scope))
                } else if k == "scope"@ {
                    Some((realm, service, Some(trim_quotes(v))))
                } else {
                    Some((realm, service, scope))
                },
            },
        }
    }
}

/// The `(url, service, scope)` of a header
/// `Bearer realm="<url>",service="<service>",scope="<scope>"`.
pub open spec fn decode_challenge(h: Seq<char>) -> Option<(Seq<char>, Seq<char>, Seq<char>)> {
    match split_first(h, ' ') {
        None => None,
        Some((ty, rest)) => if ty != "Bearer"@ {
            None
        } else {
            match challenge_params(comma_pieces(rest)) {
                Some((Some(u), Some(sv), Some(sc))) => Some((u, sv, sc)),
                _ => None,
            }
        },
    }
}

/// A `WWW-Authenticate` bearer challenge.
#[derive(Debug, Clone, PartialEq, Eq)]
pub struct AuthChallenge {
    pub url: String,
    pub service: String,
    pub scope: String,
}

fn same_chars(a: &[char], b: &[char]) -> (r: bool)
    ensures
        r == (a@ == b@),
{
    if a.len() != b.len() {
        return false;
    }
    let mut i: usize = 0;
    while i < a.len()
        invariant
            a@.len() == b@.len(),
            i <= a@.len(),
            forall|j: int| 0 <= j < i ==> a@[j] == b@[j],
        decreases a@.len() - i,
    {
        if a[i] != b[i] {
            return false;
        }
        i = i + 1;
    }
    assert(a@ =~= b@);
    true
}

fn trim_quotes_exec(v: &[char]) -> (r: Vec<char>)
    ensures
        r@ == trim_quotes(v@),
{
    let n = v.len();
    let mut lo: usize = 0;
    assert(v@.subrange(0, n as int) =~= v@);
    while lo < n && v[lo] == '"'
        invariant
            lo <= n == v@.len(),
            trim_leading_quotes(v@) == trim_leading_quotes(v@.subrange(lo as int, n as int)),
        decreases n - lo,
    {
        assert(v@.subrange(lo as int, n as int).drop_first() =~= v@.subrange(lo + 1, n as int));
        lo = lo + 1;
    }
    let mut hi: usize = n;
    while hi > lo && v[hi - 1] == '"'
        invariant
            lo <= hi <= n == v@.len(),
            trim_leading_quotes(v@) == v@.subrange(lo as int, n as int),
            trim_quotes(v@) == trim_trailing_quotes(v@.subrange(lo as int, hi as int)),
        decreases hi,
    {
        assert(v@.subrange(lo as int, hi as int).drop_last() =~= v@.subrange(lo as int, hi - 1));
        hi = hi - 1;
    }
    let mut r: Vec<char> = Vec::new();
    let mut i: usize = lo;
    while i < hi
        invariant
            lo <= i <= hi <= n == v@.len(),
            r@ == v@.subrange(lo as int, i as int),
        decreases hi - i,
    {
        r.push(v[i]);
        assert(v@.subrange(lo as int, i + 1) =~= v@.subrange(lo as int, i as int).push(v@[i as int]));
        i = i + 1;
    }
    r
}

/// One `key=value` piece applied to the fields found so far.
fn apply_param(
    piece: &[char],
    realm: Option<Vec<char>>,
    service: Option<Vec<char>>,
    scope: Option<Vec<char>>,
) -> (r: Option<(Option<Vec<char>>, Option<Vec<char>>, Option<Vec<char>>)>)
    ensures
        match split_first(piece@, '=') {
            None => r is None,
            Some((k, v)) => r is Some && {
                let (a, b, c) = r->Some_0;
                let t = trim_quotes(v);
                view_opt(a) == (if k == "realm"@ { Some(t) } else { view_opt(realm) })
                    && view_opt(b) == (if k != "realm"@ && k == "service"@ { Some(t) } else { view_opt(service) })
                    && view_opt(c) == (if k != "realm"@ && k != "service"@ && k == "scope"@ { Some(t) } else { view_opt(scope) })
            },
        },
{
    match split_first_exec(piece, '=') {
        None => None,
        Some((k, v)) => {
            let t = trim_quotes_exec(v.as_slice());
            let kr = chars_of("realm");
            let ks = chars_of("service");
            let kc = chars_of("scope");
            if same_chars(k.as_slice(), kr.as_slice()) {
                Some((Some(t), service, scope))
            } else if same_chars(k.as_slice(), ks.as_slice()) {
                Some((realm, Some(t), scope))
            } else if same_chars(k.as_slice(), kc.as_slice()) {
                Some((realm, service, Some(t)))
            } else {
                Some((realm, service, scope))
            }
        },
    }
}

pub open spec fn view_opt(o: Option<Vec<char>>) -> Option<Seq<char>> {
    match o {
        Some(v) => Some(v@),
        None => None,
    }
}

proof fn lemma_comma_pieces_len(s: Seq<char>)
    ensures
        comma_pieces(s).len() >= 1,
    decreases s.len(),
{
    if s.len() > 0 {
        lemma_comma_pieces_len(s.drop_last());
    }
}

impl AuthChallenge {
    /// Parses `Bearer realm="<url>",service="<service>",scope="<scope>"`.
    pub fn from_header(header: &str) -> (r: Result<AuthChallenge, Error>)
        ensures
            match r {
                Ok(c) => decode_challenge(header@) == Some((c.url@, c.service@, c.scope@)),
                Err(e) => decode_challenge(header@) is None && e.is_unsupported_auth_header(header@),
            },
    {
        let cs = chars_of(header);
        let (ty, rest) = match split_first_exec(cs.as_slice(), ' ') {
            Some(x) => x,
            None => {
                return Err(Error::UnsupportedAuthHeader(header.to_owned()));
            },
        };
        let bearer = chars_of("Bearer");
        if !same_chars(ty.as_slice(), bearer.as_slice()) {
            return Err(Error::UnsupportedAuthHeader(header.to_owned()));
        }
        let ghost s = rest@;
        let n = rest.len();
        let mut realm: Option<Vec<char>> = None;
        let mut service: Option<Vec<char>> = None;
        let mut scope: Option<Vec<char>> = None;
        let mut cur: Vec<char> = Vec::new();
        let mut failed = false;
        let mut i: usize = 0;
        assert(s.subrange(0, 0) =~= Seq::<char>::empty());
        while i < n
            invariant
                n == s.len(),
                s == rest@,
                i <= n,
                comma_pieces(s.subrange(0, i as int)).len() >= 1,
                cur@ == comma_pieces(s.subrange(0, i as int)).last(),
                !failed ==> challenge_params(comma_pieces(s.subrange(0, i as int)).drop_last())
                    == Some((view_opt(realm), view_opt(service), view_opt(scope))),
                failed ==> challenge_params(comma_pieces(s.subrange(0, i as int)).drop_last()) is None,
            decreases n - i,
        {
            let c = rest[i];
            let ghost pre = s.subrange(0, i as int);
            let ghost next = s.subrange(0, i + 1);
            assert(next.drop_last() =~= pre);
            proof {
                lemma_comma_pieces_len(pre);
            }
            if c == ',' {
                let ghost ps = comma_pieces(pre);
                assert(comma_pieces(next) == ps.push(Seq::<char>::empty()));
                assert(comma_pieces(next).drop_last() =~= ps);
                assert(ps.drop_last().push(ps.last()) =~= ps);
                if !failed {
                    match apply_param(cur.as_slice(), realm, service, scope) {
                        None => {
                            failed = true;
                            realm = None;
                            service = None;
                            scope = None;
                        },
                        Some((a, b, d)) => {
                            realm = a;
                            service = b;
                            scope = d;
                        },
                    }
                }
                cur = Vec::new();
            } else {
                cur.push(c);
                let ghost ps = comma_pieces(pre);
                assert(comma_pieces(next) == ps.update(ps.len() - 1, ps.last().push(c)));
                assert(comma_pieces(next).drop_last() =~= ps.drop_last());
            }
            i = i + 1;
        }
        assert(s.subrange(0, n as int) =~= s);
        let ghost ps = comma_pieces(s);
        assert(ps.drop_last().push(ps.last()) =~= ps);
        if failed {
            return Err(Error::UnsupportedAuthHeader(header.to_owned()));
        }
        match apply_param(cur.as_slice(), realm, service, scope) {
            Some((Some(u), Some(sv), Some(sc))) => Ok(
                AuthChallenge {
                    url: string_of(u.as_slice()),
                    service: string_of(sv.as_slice()),
                    scope: string_of(sc.as_slice()),
                },
            ),
            _ => Err(Error::UnsupportedAuthHeader(header.to_owned())),
        }
    }
}

/// The standard base64 text of a byte sequence, with padding.
pub uninterp spec fn base64_encoding(b: Seq<u8>) -> Seq<char>;

/// The bytes that a standard base64 text decodes to, if it is valid.
pub uninterp spec fn base64_decoding(s: Seq<char>) -> Option<Seq<u8>>;

/// Relies on `base64`'s `STANDARD.encode`: standard alphabet, padded.
#[verifier::external_body]
fn base64_encode(b: &[u8]) -> (r: String)
    requires
        b@.len() <= usize::MAX / 2,
    ensures
        r@ == base64_encoding(b@),
{
    base64::engine::general_purpose::STANDARD.encode(b)
}

/// Relies on `base64`'s `STANDARD.decode`: `Err` exactly on invalid input.
#[verifier::external_body]
fn base64_decode(s: &str) -> (r: Option<Vec<u8>>)
    ensures
        match r {
            Some(v) => base64_decoding(s@) == Some(v@),
            None => base64_decoding(s@) is None,
        },
{
    base64::engine::general_purpose::STANDARD.decode(s).ok()
}

/// The number of `:` bytes in `b`.
pub open spec fn colon_count(b: Seq<u8>) -> nat
    decreases b.len(),
{
    if b.len() == 0 {
        0
    } else {
        colon_count(b.drop_last()) + if b.last() == 58u8 { 1nat } else { 0nat }
    }
}

/// A stored credential decodes to `user:password`: exactly two parts around
/// a single `:`.
pub open spec fn valid_auth(a: Seq<char>) -> bool {
    match base64_decoding(a) {
        Some(b) => colon_count(b) == 1,
        None => false,
    }
}

/// The credential text for a user and a password: base64 of `user:password`.
pub open spec fn basic_auth(username: Seq<char>, password: Seq<char>) -> Seq<char> {
    base64_encoding(vstd::utf8::encode_utf8(username + seq![':'] + password))
}

/// One stored credential: a registry host and its base64 `user:password`.
#[derive(Debug, Clone, PartialEq, Eq)]
pub struct AuthEntry {
    pub host: String,
    pub auth: String,
}

/// The map from host to credential that a list of entries gives.
pub open spec fn entries_map(es: Seq<AuthEntry>) -> Map<Seq<char>, Seq<char>>
    decreases es.len(),
{
    if es.len() == 0 {
        Map::empty()
    } else {
        entries_map(es.drop_last()).insert(es.last().host@, es.last().auth@)
    }
}

pub open spec fn unique_hosts(es: Seq<AuthEntry>) -> bool {
    forall|i: int, j: int|
        0 <= i < es.len() && 0 <= j < es.len() && i != j ==> #[trigger] es[i].host@ != #[trigger] es[j].host@
}

proof fn lemma_entries_map(es: Seq<AuthEntry>)
    requires
        unique_hosts(es),
    ensures
        forall|k: Seq<char>|
            #[trigger] entries_map(es).contains_key(k) <==> exists|i: int| 0 <= i < es.len() && es[i].host@ == k,
        forall|i: int| 0 <= i < es.len() ==> #[trigger] entries_map(es)[es[i].host@] == es[i].auth@,
    decreases es.len(),
{
    if es.len() > 0 {
        let p = es.drop_last();
        assert forall|i: int, j: int|
            0 <= i < p.len() && 0 <= j < p.len() && i != j implies #[trigger] p[i].host@ != #[trigger] p[j].host@ by {
            assert(p[i] == es[i] && p[j] == es[j]);
        }
        lemma_entries_map(p);
        let m = entries_map(es);
        assert(m == entries_map(p).insert(es.last().host@, es.last().auth@));
        assert forall|k: Seq<char>| #[trigger] m.contains_key(k) <==> exists|i: int| 0 <= i < es.len() && es[i].host@ == k by {
            if m.contains_key(k) && k != es.last().host@ {
                assert(entries_map(p).contains_key(k));
                let i = choose|i: int| 0 <= i < p.len() && p[i].host@ == k;
                assert(es[i] == p[i]);
            }
            if m.contains_key(k) && k == es.last().host@ {
                assert(es[es.len() - 1].host@ == k);
            }
            if exists|i: int| 0 <= i < es.len() && es[i].host@ == k {
                let i = choose|i: int| 0 <= i < es.len() && es[i].host@ == k;
                if i < p.len() {
                    assert(es[i] == p[i]);
                }
            }
        }
        assert forall|i: int| 0 <= i < es.len() implies #[trigger] m[es[i].host@] == es[i].auth@ by {
            if i < es.len() - 1 {
                assert(es[i] == p[i]);
                assert(es[i].host@ != es[es.len() - 1].host@);
            }
        }
    }
}

/// Credentials per registry host.
#[derive(Debug, Clone)]
pub struct StoredAuth {
    auths: Vec<AuthEntry>,
}

impl View for StoredAuth {
    type V = Map<Seq<char>, Seq<char>>;

    closed spec fn view(&self) -> Map<Seq<char>, Seq<char>> {
        entries_map(self.auths@)
    }
}

/// The entries of `m` whose credential decodes to `user:password`.
pub open spec fn valid_part(m: Map<Seq<char>, Seq<char>>) -> Map<Seq<char>, Seq<char>> {
    m.restrict(m.dom().filter(|k: Seq<char>| valid_auth(m[k])))
}

impl StoredAuth {
    /// One entry per host.
    pub closed spec fn wf(&self) -> bool {
        unique_hosts(self.auths@)
    }

    /// No credentials.
    pub fn new() -> (r: StoredAuth)
        ensures
            r@ == Map::<Seq<char>, Seq<char>>::empty(),
            r.wf(),
    {
        StoredAuth { auths: Vec::new() }
    }

    /// The entries, one per host.
    pub fn entries(&self) -> (r: &Vec<AuthEntry>)
        requires
            self.wf(),
        ensures
            entries_map(r@) == self@,
            unique_hosts(r@),
    {
        proof {
            
        }
        &self.auths
    }

    /// The credential for `host`.
    pub fn get(&self, host: &str) -> (r: Option<String>)
        requires
            self.wf(),
        ensures
            match r {
                Some(a) => self@.contains_key(host@) && a@ == self@[host@],
                None => !self@.contains_key(host@),
            },
    {
        proof {
            
            lemma_entries_map(self.auths@);
        }
        let key = host.to_owned();
        let mut i: usize = 0;
        while i < self.auths.len()
            invariant
                key@ == host@,
                unique_hosts(self.auths@),
                i <= self.auths@.len(),
                forall|j: int| 0 <= j < i ==> self.auths@[j].host@ != host@,
            decreases self.auths@.len() - i,
        {
            if self.auths[i].host == key {
                proof {
                    lemma_entries_map(self.auths@);
                }
                return Some(self.auths[i].auth.clone());
            }
            i = i + 1;
        }
        proof {
            lemma_entries_map(self.auths@);
        }
        None
    }

    /// Stores `auth` as the credential for `domain`, replacing any earlier one.
    pub fn insert(&mut self, domain: &str, auth: String)
        requires
            old(self).wf(),
        ensures
            final(self).wf(),
            final(self)@ == old(self)@.insert(domain@, auth@),
    {
        proof {
            
            lemma_entries_map(self.auths@);
        }
        let ghost before = self.auths@;
        let ghost start_view = self@;
        let ghost auth_v = auth@;
        assert(start_view == entries_map(before));
        let key = domain.to_owned();
        let e = AuthEntry { host: domain.to_owned(), auth };
        let mut i: usize = 0;
        while i < self.auths.len()
            invariant
                key@ == domain@,
                e.host@ == domain@,
                e.auth@ == auth_v,
                auth_v == auth@,
                start_view == old(self)@,
                start_view == entries_map(before),
                self.auths@ == before,
                unique_hosts(before),
                i <= before.len(),
                forall|j: int| 0 <= j < i ==> before[j].host@ != domain@,
            decreases before.len() - i,
        {
            if self.auths[i].host == key {
                let ghost after = before.update(i as int, e);
                proof {
                    assert forall|a: int, b: int|
                        0 <= a < after.len() && 0 <= b < after.len() && a != b implies #[trigger] after[a].host@
                        != #[trigger] after[b].host@ by {
                        if a != i && b != i {
                            assert(after[a] == before[a] && after[b] == before[b]);
                        } else if a == i {
                            assert(after[b] == before[b]);
                        } else {
                            assert(after[a] == before[a]);
                        }
                    }
                    lemma_entries_map(after);
                    lemma_entries_map(before);
                    assert forall|j: int| 0 <= j < after.len() && j != i implies after[j] == before[j] by {}
                    assert(entries_map(after) =~= entries_map(before).insert(domain@, e.auth@)) by {
                        assert forall|k: Seq<char>| #[trigger] entries_map(after).contains_key(k)
                            <==> entries_map(before).insert(domain@, e.auth@).contains_key(k) by {
                            if exists|j: int| 0 <= j < before.len() && before[j].host@ == k {
                                let j = choose|j: int| 0 <= j < before.len() && before[j].host@ == k;
                                if j != i {
                                    assert(after[j] == before[j]);
                                } else {
                                    assert(after[j].host@ == k);
                                }
                            }
                            if exists|j: int| 0 <= j < after.len() && after[j].host@ == k {
                                let j = choose|j: int| 0 <= j < after.len() && after[j].host@ == k;
                                if j != i {
                                    assert(after[j] == before[j]);
                                }
                            }
                        }
                        assert forall|k: Seq<char>| #[trigger] entries_map(after).contains_key(k) implies
                            entries_map(after)[k] == entries_map(before).insert(domain@, e.auth@)[k] by {
                            let j = choose|j: int| 0 <= j < after.len() && after[j].host@ == k;
                            if j != i {
                                assert(after[j] == before[j]);
                            }
                        }
                    }
                }
                let ghost old_map = entries_map(before);
                let ghost new_auth = e.auth@;
                self.auths.set(i, e);
                assert(self.auths@ == after);
                assert(entries_map(after) == old_map.insert(domain@, new_auth));
                assert(new_auth == auth_v);
                assert(self@ == start_view.insert(domain@, auth_v));
                return;
            }
            i = i + 1;
        }
        let ghost after = before.push(e);
        proof {
            assert forall|a: int, b: int|
                0 <= a < after.len() && 0 <= b < after.len() && a != b implies #[trigger] after[a].host@
                != #[trigger] after[b].host@ by {
                if a < before.len() && b < before.len() {
                    assert(after[a] == before[a] && after[b] == before[b]);
                } else if a < before.len() {
                    assert(after[a] == before[a]);
                } else {
                    assert(after[b] == before[b]);
                }
            }
            assert(after.drop_last() =~= before);
        }
        self.auths.push(e);
    }

    /// Stores the credential for `username` and `password` at `domain`.
    pub fn add(&mut self, domain: &str, username: &str, password: &str)
        requires
            old(self).wf(),
            username@.len() + password@.len() < usize::MAX / 16,
        ensures
            final(self).wf(),
            final(self)@ == old(self)@.insert(domain@, basic_auth(username@, password@)),
    {
        let mut s = username.to_owned();
        push_char(&mut s, ':');
        s.append(password);
        proof {
            lemma_utf8_len_bound(s@);
        }
        assert(s@ =~= username@ + seq![':'] + password@);
        let auth = base64_encode(s.as_str().as_bytes());
        self.insert(domain, auth);
    }

    /// Whether a credential decodes to `user:password`.
    pub fn is_valid(auth: &str) -> (r: bool)
        ensures
            r == valid_auth(auth@),
    {
        match base64_decode(auth) {
            None => false,
            Some(b) => {
                let mut n: usize = 0;
                let mut i: usize = 0;
                while i < b.len()
                    invariant
                        i <= b@.len(),
                        n as nat == colon_count(b@.subrange(0, i as int)),
                        n <= i,
                    decreases b@.len() - i,
                {
                    assert(b@.subrange(0, i + 1).drop_last() =~= b@.subrange(0, i as int));
                    if b[i] == 58u8 {
                        n = n + 1;
                    }
                    i = i + 1;
                }
                assert(b@.subrange(0, b@.len() as int) =~= b@);
                n == 1
            },
        }
    }

    /// Takes over the entries of `other` whose credential is valid; they
    /// replace entries of the same host.
    pub fn append(&mut self, other: StoredAuth)
        requires
            old(self).wf(),
            other.wf(),
        ensures
            final(self).wf(),
            final(self)@ == old(self)@.union_prefer_right(valid_part(other@)),
    {
        proof {
            
            lemma_entries_map(other.auths@);
        }
        let ghost start = self@;
        let ghost om = other@;
        let es = other.auths;
        let mut i: usize = 0;
        assert(es@.subrange(0, 0) =~= Seq::<AuthEntry>::empty());
        while i < es.len()
            invariant
                i <= es@.len(),
                unique_hosts(es@),
                self.wf(),
                entries_map(es@) == om,
                self@ == start.union_prefer_right(valid_part(entries_map(es@.subrange(0, i as int)))),
            decreases es@.len() - i,
        {
            let e = &es[i];
            let ghost pre = es@.subrange(0, i as int);
            let ghost next = es@.subrange(0, i + 1);
            assert(next.drop_last() =~= pre);
            assert(next.last() == es@[i as int]);
            let ghost m0 = entries_map(pre);
            let ghost m1 = entries_map(next);
            proof {
                assert(m1 == m0.insert(e.host@, e.auth@));
                assert forall|a: int, b: int|
                    0 <= a < pre.len() && 0 <= b < pre.len() && a != b implies #[trigger] pre[a].host@
                    != #[trigger] pre[b].host@ by {
                    assert(pre[a] == es@[a] && pre[b] == es@[b]);
                }
                lemma_entries_map(pre);
                if m0.contains_key(e.host@) {
                    let j = choose|j: int| 0 <= j < pre.len() && pre[j].host@ == e.host@;
                    assert(pre[j] == es@[j]);
                }
                assert(!m0.contains_key(e.host@));
            }
            if StoredAuth::is_valid(e.auth.as_str()) {
                self.insert(e.host.as_str(), e.auth.clone());
                assert(valid_part(m1) =~= valid_part(m0).insert(e.host@, e.auth@));
                assert(self@ =~= start.union_prefer_right(valid_part(m1)));
            } else {
                assert(valid_part(m1) =~= valid_part(m0));
            }
            i = i + 1;
        }
        assert(es@.subrange(0, es@.len() as int) =~= es@);
    }

    /// Keeps only the loaded entries whose credential is valid.
    pub fn load(loaded: StoredAuth) -> (r: StoredAuth)
        requires
            loaded.wf(),
        ensures
            r.wf(),
            r@ == valid_part(loaded@),
    {
        let mut r = StoredAuth::new();
        r.append(loaded);
        assert(r@ =~= valid_part(loaded@));
        r
    }

    /// Merges stores loaded in order, later ones winning per host; fails when
    /// none could be loaded.
    pub fn load_all(loaded: Vec<StoredAuth>) -> (r: Result<StoredAuth, Error>)
        requires
            forall|i: int| 0 <= i < loaded@.len() ==> #[trigger] loaded@[i].wf(),
        ensures
            match r {
                Ok(a) => loaded@.len() > 0 && a.wf() && a@ == merged(auth_views(loaded@)),
                Err(e) => loaded@.len() == 0 && e == Error::NoValidAuthInfo,
            },
    {
        let n = loaded.len();
        if n == 0 {
            return Err(Error::NoValidAuthInfo);
        }
        let ghost all = loaded@;
        let ghost ms = auth_views(all);
        let mut rest = loaded;
        let mut r = StoredAuth::new();
        let mut i: usize = 0;
        assert(ms.subrange(0, 0) =~= Seq::<Map<Seq<char>, Seq<char>>>::empty());
        while rest.len() > 0
            invariant
                i <= n == all.len() == ms.len(),
                ms == auth_views(all),
                forall|j: int| 0 <= j < all.len() ==> #[trigger] all[j].wf(),
                r.wf(),
                rest@ == all.subrange(i as int, n as int),
                r@ == merged(ms.subrange(0, i as int)),
            decreases rest@.len(),
        {
            let x = rest.remove(0);
            assert(x == all[i as int]);
            r.append(x);
            assert(ms.subrange(0, i + 1).drop_last() =~= ms.subrange(0, i as int));
            assert(rest@ =~= all.subrange(i + 1, n as int));
            i = i + 1;
        }
        assert(ms.subrange(0, n as int) =~= ms);
        Ok(r)
    }
}

/// The credential maps of a list of stores.
pub open spec fn auth_views(s: Seq<StoredAuth>) -> Seq<Map<Seq<char>, Seq<char>>> {
    s.map_values(|x: StoredAuth| x@)
}

/// Valid entries of each map in turn, later maps winning per host.
pub open spec fn merged(ms: Seq<Map<Seq<char>, Seq<char>>>) -> Map<Seq<char>, Seq<char>>
    decreases ms.len(),
{
    if ms.len() == 0 {
        Map::empty()
    } else {
        merged(ms.drop_last()).union_prefer_right(valid_part(ms.last()))
    }
}

/// UTF-8 takes at most four bytes per character.
proof fn lemma_utf8_len_bound(s: Seq<char>)
    ensures
        vstd::utf8::encode_utf8(s).len() <= 4 * s.len(),
    decreases s.len(),
{
    if s.len() > 0 {
        lemma_utf8_len_bound(s.drop_first());
    }
}

} // verus!
