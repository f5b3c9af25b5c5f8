//! Image names, `hostname[:port]/name[:reference]`, and their path forms.

use vstd::prelude::*;

use crate::digest::{valid_algorithm, valid_encoded};
use crate::distribution::name::valid_name;
use crate::distribution::reference::{percent_encoded, valid_reference, valid_tag};
use crate::distribution::{Name, Reference};
use crate::error::Error;
use crate::text::{
    chars_of, decimal_of, dunder_at, escape_colons, has_prefix, is_digit, lemma_decimal_of,
    lemma_escape_colons_chars, lemma_parse_port_decimal, lemma_split_first,
    lemma_split_first_dunder, lemma_split_first_dunder_none, lemma_split_first_none, lemma_split_first_parts,
    lemma_split_last, lemma_unescape_escape, no_dunder, parse_port, parse_port_chars,
    port_to_string, push_char, push_escaped_colons, split_first, split_first_dunder,
    split_first_dunder_exec, split_first_exec, split_last, split_last_exec, string_of,
    unescape_colons, unescape_colons_exec,
};

verus! {

pub open spec fn default_hostname() -> Seq<char> {
    "registry-1.docker.io"@
}

pub open spec fn default_reference() -> Seq<char> {
    "latest"@
}

/// What stands before the first `/`, or the default registry.
pub open spec fn host_part(s: Seq<char>) -> Seq<char> {
    match split_first(s, '/') {
        Some((h, _)) => h,
        None => default_hostname(),
    }
}

/// What stands after the first `/`, or all of `s`.
pub open spec fn repository_part(s: Seq<char>) -> Seq<char> {
    match split_first(s, '/') {
        Some((_, r)) => r,
        None => s,
    }
}

pub open spec fn hostname_part(s: Seq<char>) -> Seq<char> {
    match split_first(host_part(s), ':') {
        Some((h, _)) => h,
        None => host_part(s),
    }
}

/// The text after `:` in the host part, if there is one.
pub open spec fn port_text(s: Seq<char>) -> Option<Seq<char>> {
    match split_first(host_part(s), ':') {
        Some((_, p)) => Some(p),
        None => None,
    }
}

pub open spec fn name_part(s: Seq<char>) -> Seq<char> {
    match split_first(repository_part(s), ':') {
        Some((n, _)) => n,
        None => repository_part(s),
    }
}

pub open spec fn reference_part(s: Seq<char>) -> Seq<char> {
    match split_first(repository_part(s), ':') {
        Some((_, r)) => r,
        None => default_reference(),
    }
}

/// A port text, when present, reads as a port number.
pub open spec fn port_fits(p: Option<Seq<char>>) -> bool {
    match p {
        Some(t) => parse_port(t) is Some,
        None => true,
    }
}

pub open spec fn port_of(p: Option<Seq<char>>) -> Option<u16> {
    match p {
        Some(t) => parse_port(t),
        None => None,
    }
}

/// The fields `(hostname, port, name, reference)` that `s` denotes as an
/// image name, if it denotes one.
pub open spec fn decode_image_name(s: Seq<char>) -> Option<(Seq<char>, Option<u16>, Seq<char>, Seq<char>)> {
    if port_fits(port_text(s)) && valid_name(name_part(s)) && valid_reference(reference_part(s)) {
        Some((hostname_part(s), port_of(port_text(s)), name_part(s), reference_part(s)))
    } else {
        None
    }
}

/// The error for a text that is no image name: the port is checked first,
/// then the name, then the reference.
pub open spec fn image_name_error(s: Seq<char>, e: Error) -> bool {
    if !port_fits(port_text(s)) {
        e.is_invalid_port(port_text(s)->Some_0)
    } else if !valid_name(name_part(s)) {
        e.is_invalid_name(name_part(s))
    } else {
        e.is_invalid_reference(reference_part(s))
    }
}

/// The pieces `(registry, name, last)` of a path: before the first `/`,
/// between it and the last `/`, and after the last `/`.
pub open spec fn path_pieces(s: Seq<char>) -> Option<(Seq<char>, Seq<char>, Seq<char>)> {
    match split_first(s, '/') {
        None => None,
        Some((registry, after)) => match split_last(after, '/') {
            None => None,
            Some((middle, last)) => Some((registry, middle, last)),
        },
    }
}

pub open spec fn registry_hostname(registry: Seq<char>) -> Seq<char> {
    match split_first_dunder(registry) {
        Some((h, _)) => h,
        None => registry,
    }
}

/// The piece after the first `__` of the registry, up to the next `__`.
pub open spec fn registry_port_text(registry: Seq<char>) -> Option<Seq<char>> {
    match split_first_dunder(registry) {
        Some((_, rest)) => Some(
            match split_first_dunder(rest) {
                Some((p, _)) => p,
                None => rest,
            },
        ),
        None => None,
    }
}

/// The reference that a last piece `__<escaped>` holds.
pub open spec fn path_reference(last: Seq<char>) -> Option<Seq<char>> {
    if last.len() >= 2 && last[0] == '_' && last[1] == '_' {
        Some(unescape_colons(last.subrange(2, last.len() as int)))
    } else {
        None
    }
}

/// The fields `(hostname, port, name, reference)` that a path of the local
/// store denotes, if it denotes an image name.
pub open spec fn decode_image_path(s: Seq<char>) -> Option<(Seq<char>, Option<u16>, Seq<char>, Seq<char>)> {
    match path_pieces(s) {
        None => None,
        Some((registry, middle, last)) => match path_reference(last) {
            Some(t) => if port_fits(registry_port_text(registry)) && valid_name(middle)
                && valid_reference(t) {
                Some((registry_hostname(registry), port_of(registry_port_text(registry)), middle, t))
            } else {
                None
            },
            None => None,
        },
    }
}

/// The error for a path that denotes no image name.
pub open spec fn image_path_error(s: Seq<char>, e: Error) -> bool {
    match path_pieces(s) {
        None => e.is_invalid_name(s),
        Some((registry, middle, last)) => if !port_fits(registry_port_text(registry)) {
            e.is_invalid_port(registry_port_text(registry)->Some_0)
        } else if !valid_name(middle) {
            e.is_invalid_name(middle)
        } else {
            match path_reference(last) {
                None => e.is_invalid_reference(last),
                Some(t) => e.is_invalid_reference(t),
            }
        },
    }
}

/// The text that percent-decoding `s` gives, if it is valid UTF-8.
pub uninterp spec fn url_decoded(s: Seq<char>) -> Option<Seq<char>>;

/// Relies on `urlencoding::decode`: `%XX` sequences become bytes, and the
/// result must be UTF-8.
#[verifier::external_body]
fn url_decode(s: &str) -> (r: Option<String>)
    ensures
        match r {
            Some(d) => url_decoded(s@) == Some(d@),
            None => url_decoded(s@) is None,
        },
{
    urlencoding::decode(s).ok().map(|d| d.into_owned())
}

pub open spec fn no_slash_or_colon(s: Seq<char>) -> bool {
    forall|i: int| 0 <= i < s.len() ==> #[trigger] s[i] != '/' && s[i] != ':'
}

/// Image name, `hostname[:port]/name:reference`.
#[derive(Debug, Clone, PartialEq, Eq, Hash)]
pub struct ImageName {
    pub hostname: String,
    pub port: Option<u16>,
    pub name: Name,
    pub reference: Reference,
}

impl ImageName {
    /// The fields are as parsing leaves them.
    pub open spec fn wf(&self) -> bool {
        no_slash_or_colon(self.hostname@) && self.name.wf() && self.reference.wf()
    }

    pub open spec fn fields(&self) -> (Seq<char>, Option<u16>, Seq<char>, Seq<char>) {
        (self.hostname@, self.port, self.name@, self.reference@)
    }

    pub open spec fn port_suffix(&self, sep: Seq<char>) -> Seq<char> {
        match self.port {
            Some(p) => sep + decimal_of(p as nat),
            None => Seq::empty(),
        }
    }

    /// `hostname[:port]/name:reference`
    pub open spec fn text(&self) -> Seq<char> {
        self.hostname@ + self.port_suffix(seq![':']) + seq!['/'] + self.name@ + seq![':']
            + self.reference@
    }

    /// `hostname[__port]/name/__reference`, with each `:` of the reference as `__`.
    pub open spec fn path(&self) -> Seq<char> {
        self.hostname@ + self.port_suffix(seq!['_', '_']) + seq!['/'] + self.name@ + seq!['/']
            + seq!['_', '_'] + escape_colons(self.reference@)
    }

    /// `hostname[%3Aport]/name%3Areference`, the reference percent-encoded.
    pub open spec fn escaped_path(&self) -> Seq<char> {
        self.hostname@ + self.port_suffix("%3A"@) + seq!['/'] + self.name@ + "%3A"@
            + percent_encoded(self.reference@)
    }

    /// The base URL of the registry's API.
    pub open spec fn url(&self) -> Seq<char> {
        (if self.hostname@.len() >= 9 && self.hostname@.subrange(0, 9) == "localhost"@ {
            "http://"@
        } else {
            "https://"@
        }) + self.hostname@ + self.port_suffix(seq![':'])
    }

    /// A path of the local store survives the round trip: the hostname has no
    /// `__` and, before a port, does not end in `_`; the reference has no `__`.
    pub open spec fn path_safe(&self) -> bool {
        &&& no_dunder(self.hostname@)
        &&& (self.port is Some && self.hostname@.len() > 0 ==> self.hostname@.last() != '_')
        &&& no_dunder(self.reference@)
    }

    /// Parses `hostname[:port]/name[:reference]`; the hostname defaults to
    /// `registry-1.docker.io` and the reference to `latest`.
    pub fn parse(name: &str) -> (r: Result<ImageName, Error>)
        ensures
            match r {
                Ok(n) => decode_image_name(name@) == Some(n.fields()) && n.wf(),
                Err(e) => decode_image_name(name@) is None && image_name_error(name@, e),
            },
    {
        let cs = chars_of(name);
        let ghost s = cs@;
        proof {
            lemma_split_first_parts(s, '/');
        }
        let (host, rest) = match split_first_exec(cs.as_slice(), '/') {
            Some((h, r)) => (h, r),
            None => (chars_of("registry-1.docker.io"), cs),
        };
        assert(host@ == host_part(s));
        assert(rest@ == repository_part(s));
        proof {
            reveal_strlit("registry-1.docker.io");
            lemma_split_first_parts(host@, ':');
            lemma_split_first_parts(rest@, ':');
        }
        let (hostname, port) = match split_first_exec(host.as_slice(), ':') {
            Some((h, p)) => {
                let v = parse_port_chars(p.as_slice(), 0);
                assert(p@.subrange(0, p@.len() as int) =~= p@);
                match v {
                    Some(v) => (h, Some(v)),
                    None => {
                        return Err(Error::InvalidPort(string_of(p.as_slice())));
                    },
                }
            },
            None => (host, None),
        };
        assert(hostname@ == hostname_part(s));
        assert(port == port_of(port_text(s)));
        let (name_cs, ref_cs) = match split_first_exec(rest.as_slice(), ':') {
            Some((a, b)) => (a, b),
            None => (rest, chars_of("latest")),
        };
        let name_s = string_of(name_cs.as_slice());
        let n = match Name::new(name_s.as_str()) {
            Ok(n) => n,
            Err(e) => {
                return Err(e);
            },
        };
        let ref_s = string_of(ref_cs.as_slice());
        let reference = match Reference::new(ref_s.as_str()) {
            Ok(x) => x,
            Err(e) => {
                return Err(e);
            },
        };
        let r = ImageName { hostname: string_of(hostname.as_slice()), port, name: n, reference };
        proof {
            assert forall|i: int| 0 <= i < r.hostname@.len() implies #[trigger] r.hostname@[i] != '/'
                && r.hostname@[i] != ':' by {
                if split_first(s, '/') is Some {
                    let h = host_part(s);
                    if split_first(h, ':') is Some {
                        assert(h == hostname@ + seq![':'] + port_text(s)->Some_0);
                        assert(h[i] == hostname@[i]);
                    }
                } else {
                    assert(default_hostname()[i] == r.hostname@[i]);
                }
            }
        }
        Ok(r)
    }

    /// `hostname[:port]/name:reference`
    pub fn to_string(&self) -> (r: String)
        ensures
            r@ == self.text(),
    {
        let mut r = self.hostname.clone();
        if let Some(p) = self.port {
            push_char(&mut r, ':');
            let d = port_to_string(p);
            r.append(d.as_str());
        }
        push_char(&mut r, '/');
        r.append(self.name.as_str());
        push_char(&mut r, ':');
        r.append(self.reference.as_str());
        proof {
            assert(r@ =~= self.text());
        }
        r
    }

    /// URL of the registry's API: `http://` for a host named `localhost...`,
    /// `https://` otherwise.
    pub fn registry_url(&self) -> (r: String)
        ensures
            r@ == self.url(),
    {
        let h = chars_of(self.hostname.as_str());
        let local = chars_of("localhost");
        proof {
            reveal_strlit("localhost");
        }
        let mut r = if has_prefix(h.as_slice(), local.as_slice()) {
            String::from_str("http://")
        } else {
            String::from_str("https://")
        };
        r.append(self.hostname.as_str());
        if let Some(p) = self.port {
            push_char(&mut r, ':');
            let d = port_to_string(p);
            r.append(d.as_str());
        }
        proof {
            assert(r@ =~= self.url());
        }
        r
    }

    /// `hostname[%3Aport]/name%3Areference`, the reference percent-encoded.
    pub fn as_escaped_path(&self) -> (r: String)
        ensures
            r@ == self.escaped_path(),
    {
        let mut r = self.hostname.clone();
        if let Some(p) = self.port {
            r.append("%3A");
            let d = port_to_string(p);
            r.append(d.as_str());
        }
        push_char(&mut r, '/');
        r.append(self.name.as_str());
        r.append("%3A");
        let e = self.reference.encoded();
        r.append(e.as_str());
        proof {
            assert(r@ =~= self.escaped_path());
        }
        r
    }

    /// Reads an image name back from a path written by
    /// [`ImageName::as_escaped_path`].
    pub fn from_escaped_path(path: &str) -> (r: Result<ImageName, Error>)
        ensures
            match url_decoded(path@) {
                None => r matches Err(e) && e.is_invalid_name(path@),
                Some(d) => match r {
                    Ok(n) => decode_image_name(d) == Some(n.fields()) && n.wf(),
                    Err(e) => decode_image_name(d) is None && image_name_error(d, e),
                },
            },
    {
        match url_decode(path) {
            None => Err(Error::InvalidName(path.to_owned())),
            Some(d) => ImageName::parse(d.as_str()),
        }
    }

    /// `hostname[__port]/name/__reference`, with each `:` of the reference as `__`.
    pub fn as_path(&self) -> (r: String)
        ensures
            r@ == self.path(),
    {
        let mut r = self.hostname.clone();
        if let Some(p) = self.port {
            push_char(&mut r, '_');
            push_char(&mut r, '_');
            let d = port_to_string(p);
            r.append(d.as_str());
        }
        push_char(&mut r, '/');
        r.append(self.name.as_str());
        push_char(&mut r, '/');
        push_char(&mut r, '_');
        push_char(&mut r, '_');
        let rc = chars_of(self.reference.as_str());
        push_escaped_colons(&mut r, rc.as_slice());
        proof {
            assert(r@ =~= self.path());
        }
        r
    }

    /// Reads an image name back from a path written by [`ImageName::as_path`].
    pub fn from_path(path: &str) -> (r: Result<ImageName, Error>)
        ensures
            match r {
                Ok(n) => decode_image_path(path@) == Some(n.fields()) && n.name.wf()
                    && n.reference.wf(),
                Err(e) => decode_image_path(path@) is None && image_path_error(path@, e),
            },
    {
        let cs = chars_of(path);
        let (registry, after) = match split_first_exec(cs.as_slice(), '/') {
            Some(x) => x,
            None => {
                return Err(Error::InvalidName(path.to_owned()));
            },
        };
        let (middle, last) = match split_last_exec(after.as_slice(), '/') {
            Some(x) => x,
            None => {
                return Err(Error::InvalidName(path.to_owned()));
            },
        };
        let (hostname, port) = match split_first_dunder_exec(registry.as_slice()) {
            Some((h, rest)) => {
                let p = match split_first_dunder_exec(rest.as_slice()) {
                    Some((p, _)) => p,
                    None => rest,
                };
                let v = parse_port_chars(p.as_slice(), 0);
                assert(p@.subrange(0, p@.len() as int) =~= p@);
                match v {
                    Some(v) => (h, Some(v)),
                    None => {
                        return Err(Error::InvalidPort(string_of(p.as_slice())));
                    },
                }
            },
            None => (registry, None),
        };
        let name_s = string_of(middle.as_slice());
        let n = match Name::new(name_s.as_str()) {
            Ok(n) => n,
            Err(e) => {
                return Err(e);
            },
        };
        if !(last.len() >= 2 && last[0] == '_' && last[1] == '_') {
            return Err(Error::InvalidReference(string_of(last.as_slice())));
        }
        let t = unescape_colons_exec(last.as_slice(), 2);
        let ref_s = string_of(t.as_slice());
        let reference = match Reference::new(ref_s.as_str()) {
            Ok(x) => x,
            Err(e) => {
                return Err(e);
            },
        };
        Ok(ImageName { hostname: string_of(hostname.as_slice()), port, name: n, reference })
    }
}

/// A valid reference holds no `/`, and no `_` stands right before a `:`.
proof fn lemma_reference_chars(r: Seq<char>)
    requires
        valid_reference(r),
    ensures
        forall|i: int| 0 <= i < r.len() ==> #[trigger] r[i] != '/',
        forall|i: int| 0 <= i < r.len() - 1 && #[trigger] r[i] == '_' ==> r[i + 1] != ':',
{
    if !valid_tag(r) {
        let k = choose|k: int|
            0 <= k < r.len() && #[trigger] r[k] == ':' && valid_algorithm(r.subrange(0, k))
                && valid_encoded(r.subrange(k + 1, r.len() as int));
        let a = r.subrange(0, k);
        let e = r.subrange(k + 1, r.len() as int);
        assert forall|i: int| 0 <= i < r.len() implies #[trigger] r[i] != '/' by {
            if i < k {
                assert(a[i] == r[i]);
            } else if i > k {
                assert(e[i - k - 1] == r[i]);
            }
        }
        assert forall|i: int| 0 <= i < r.len() - 1 && #[trigger] r[i] == '_' implies r[i + 1] != ':' by {
            if i + 1 < k {
                assert(a[i + 1] == r[i + 1]);
            } else if i + 1 > k {
                assert(e[i - k] == r[i + 1]);
            } else {
                assert(a.last() == r[i]);
            }
        }
    }
}

/// Parsing the text form of a valid image name gives the image name back.
pub proof fn lemma_image_name_text_round_trip(n: ImageName)
    requires
        n.wf(),
    ensures
        decode_image_name(n.text()) == Some(n.fields()),
{
    let h = n.hostname@;
    let p = n.port_suffix(seq![':']);
    let nm = n.name@;
    let r = n.reference@;
    let host = h + p;
    let repo = nm + seq![':'] + r;
    let s = n.text();
    assert(s =~= host + seq!['/'] + repo);
    assert forall|j: int| 0 <= j < host.len() implies host[j] != '/' by {
        if j < h.len() {
            assert(host[j] == h[j]);
        } else {
            let pn = n.port->Some_0;
            lemma_decimal_of(pn as nat);
            if j > h.len() {
                assert(is_digit(decimal_of(pn as nat)[j - h.len() - 1]));
            }
        }
    }
    assert forall|j: int| 0 <= j < host.len() implies s[j] != '/' by {
        assert(s[j] == host[j]);
    }
    lemma_split_first(s, '/', host.len() as int);
    assert(s.subrange(0, host.len() as int) =~= host);
    assert(s.subrange(host.len() as int + 1, s.len() as int) =~= repo);
    // the host part
    match n.port {
        None => {
            assert(host =~= h);
            lemma_split_first_none(h, ':');
        },
        Some(pn) => {
            lemma_parse_port_decimal(pn);
            assert(host =~= h + seq![':'] + decimal_of(pn as nat));
            assert forall|j: int| 0 <= j < h.len() implies host[j] != ':' by {
                assert(host[j] == h[j]);
            }
            lemma_split_first(host, ':', h.len() as int);
            assert(host.subrange(0, h.len() as int) =~= h);
            assert(host.subrange(h.len() as int + 1, host.len() as int) =~= decimal_of(pn as nat));
        },
    }
    // the repository part: a name holds no `:`
    assert forall|j: int| 0 <= j < nm.len() implies repo[j] != ':' by {
        assert(repo[j] == nm[j]);
        assert(crate::distribution::name::is_name_char(nm[j]));
    }
    lemma_split_first(repo, ':', nm.len() as int);
    assert(repo.subrange(0, nm.len() as int) =~= nm);
    assert(repo.subrange(nm.len() as int + 1, repo.len() as int) =~= r);
}

/// Reading back the store path of an image name gives the image name, for
/// every valid name whose path form is unambiguous (see
/// [`ImageName::path_safe`]).
pub proof fn lemma_image_name_path_round_trip(n: ImageName)
    requires
        n.wf(),
        n.path_safe(),
    ensures
        decode_image_path(n.path()) == Some(n.fields()),
{
    let h = n.hostname@;
    let p = n.port_suffix(seq!['_', '_']);
    let nm = n.name@;
    let r = n.reference@;
    let e = escape_colons(r);
    let registry = h + p;
    let last = seq!['_', '_'] + e;
    let after = nm + seq!['/'] + last;
    let s = n.path();
    assert(s =~= registry + seq!['/'] + after);
    lemma_reference_chars(r);
    lemma_escape_colons_chars(r);
    // the first `/` closes the registry
    assert forall|j: int| 0 <= j < registry.len() implies registry[j] != '/' by {
        if j < h.len() {
            assert(registry[j] == h[j]);
        } else {
            let pn = n.port->Some_0;
            lemma_decimal_of(pn as nat);
            if j >= h.len() + 2 {
                assert(is_digit(decimal_of(pn as nat)[j - h.len() - 2]));
            }
        }
    }
    assert forall|j: int| 0 <= j < registry.len() implies s[j] != '/' by {
        assert(s[j] == registry[j]);
    }
    lemma_split_first(s, '/', registry.len() as int);
    assert(s.subrange(0, registry.len() as int) =~= registry);
    assert(s.subrange(registry.len() as int + 1, s.len() as int) =~= after);
    // the last `/` opens the reference
    assert forall|j: int| nm.len() < j < after.len() implies after[j] != '/' by {
        let x = j - nm.len() - 1;
        assert(after[j] == last[x]);
        if x >= 2 {
            let y = e[x - 2];
            assert(last[x] == y);
            if y != '_' {
                assert(r.contains(y));
            }
        }
    }
    lemma_split_last(after, '/', nm.len() as int);
    assert(after.subrange(0, nm.len() as int) =~= nm);
    assert(after.subrange(nm.len() as int + 1, after.len() as int) =~= last);
    assert(path_pieces(s) == Some((registry, nm, last)));
    // the reference
    lemma_unescape_escape(r);
    assert(last.subrange(2, last.len() as int) =~= e);
    assert(path_reference(last) == Some(r));
    // the registry
    match n.port {
        None => {
            assert(registry =~= h);
            lemma_split_first_dunder_none(h);
        },
        Some(pn) => {
            let d = decimal_of(pn as nat);
            lemma_decimal_of(pn as nat);
            lemma_parse_port_decimal(pn);
            assert(registry =~= h + seq!['_', '_'] + d);
            assert forall|j: int| j < h.len() implies !dunder_at(registry, j) by {
                if 0 <= j && j + 1 < h.len() {
                    assert(!dunder_at(h, j));
                    assert(registry[j] == h[j] && registry[j + 1] == h[j + 1]);
                } else if j == h.len() - 1 && j >= 0 {
                    assert(registry[j] == h.last());
                }
            }
            assert(dunder_at(registry, h.len() as int));
            lemma_split_first_dunder(registry, h.len() as int);
            assert(registry.subrange(0, h.len() as int) =~= h);
            assert(registry.subrange(h.len() as int + 2, registry.len() as int) =~= d);
            assert forall|k: int| !#[trigger] dunder_at(d, k) by {
                if dunder_at(d, k) {
                    assert(is_digit(d[k]));
                }
            }
            lemma_split_first_dunder_none(d);
        },
    }
}

} // verus!
