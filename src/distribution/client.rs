//! The registry client's decisions: endpoints, and when to authenticate.
//!
//! The client sends each request as it is. A `401` with a bearer challenge
//! makes it fetch a token, keep it, and send the request once more with the
//! token; a `401` to a request that carried the token is final. Later
//! requests carry the kept token from the start.

use vstd::prelude::*;

use crate::digest::Digest;
use crate::distribution::auth::{basic_auth, decode_challenge, AuthChallenge, StoredAuth};
use crate::distribution::name::Name;
use crate::distribution::reference::Reference;
use crate::error::Error;
use crate::image_name::ImageName;

verus! {

/// What to do with a response.
#[derive(Debug, Clone, PartialEq, Eq)]
pub enum Decision {
    /// The response is the answer.
    Accept,
    /// Fetch a token for this challenge, keep it, and send the request again.
    Authenticate(AuthChallenge),
    /// The request failed.
    Reject(Error),
}

/// A client of one repository of a registry, `/v2/<name>/`.
pub struct Client {
    url: String,
    name: Name,
    auth: StoredAuth,
    token: Option<String>,
}

impl Client {
    pub closed spec fn url_spec(&self) -> Seq<char> {
        self.url@
    }

    pub closed spec fn name_spec(&self) -> Seq<char> {
        self.name@
    }

    pub closed spec fn token_spec(&self) -> Option<Seq<char>> {
        match self.token {
            Some(t) => Some(t@),
            None => None,
        }
    }

    pub closed spec fn auth_spec(&self) -> StoredAuth {
        self.auth
    }

    pub closed spec fn wf(&self) -> bool {
        self.auth.wf()
    }

    /// A client for repository `name` at the registry URL `url`, with the
    /// credentials `auth` and no token yet.
    pub fn new(url: String, name: Name, auth: StoredAuth) -> (r: Client)
        requires
            auth.wf(),
        ensures
            r.wf(),
            r.url_spec() == url@,
            r.name_spec() == name@,
            r.token_spec() is None,
            r.auth_spec() == auth,
    {
        Client { url, name, auth, token: None }
    }

    /// A client for the repository of an image name.
    pub fn from_image_name(image: &ImageName, auth: StoredAuth) -> (r: Client)
        requires
            auth.wf(),
        ensures
            r.wf(),
            r.url_spec() == image.url(),
            r.name_spec() == image.name@,
            r.token_spec() is None,
    {
        Client::new(image.registry_url(), image.name.duplicate(), auth)
    }

    /// Stores credentials for `domain`.
    pub fn add_basic_auth(&mut self, domain: &str, username: &str, password: &str)
        requires
            old(self).wf(),
            username@.len() + password@.len() < usize::MAX / 16,
        ensures
            final(self).wf(),
            final(self).auth_spec()@ == old(self).auth_spec()@.insert(
                domain@,
                basic_auth(username@, password@),
            ),
            final(self).token_spec() == old(self).token_spec(),
            final(self).url_spec() == old(self).url_spec(),
            final(self).name_spec() == old(self).name_spec(),
    {
        self.auth.add(domain, username, password);
    }

    /// The credentials of the client.
    pub fn auth(&self) -> (r: &StoredAuth)
        ensures
            *r == self.auth_spec(),
    {
        &self.auth
    }

    /// The token kept from an earlier challenge.
    pub fn token(&self) -> (r: Option<String>)
        ensures
            match r {
                Some(t) => self.token_spec() == Some(t@),
                None => self.token_spec() is None,
            },
    {
        match &self.token {
            Some(t) => Some(t.clone()),
            None => None,
        }
    }

    /// Keeps a token for the requests that follow.
    pub fn set_token(&mut self, token: String)
        ensures
            final(self).token_spec() == Some(token@),
            final(self).url_spec() == old(self).url_spec(),
            final(self).name_spec() == old(self).name_spec(),
            final(self).auth_spec() == old(self).auth_spec(),
    {
        self.token = Some(token);
    }

    /// `<url>/v2/<name>/<rest>`
    fn endpoint(&self, rest: &str) -> (r: String)
        ensures
            r@ == self.url@ + "/v2/"@ + self.name@ + seq!['/'] + rest@,
    {
        let mut r = self.url.clone();
        r.append("/v2/");
        r.append(self.name.as_str());
        crate::text::push_char(&mut r, '/');
        r.append(rest);
        r
    }

    /// `GET` here lists the tags: `<url>/v2/<name>/tags/list`.
    pub fn tags_url(&self) -> (r: String)
        ensures
            r@ == self.url_spec() + "/v2/"@ + self.name_spec() + seq!['/'] + "tags/list"@,
    {
        self.endpoint("tags/list")
    }

    /// `GET` or `PUT` here reads or writes a manifest:
    /// `<url>/v2/<name>/manifests/<reference>`.
    pub fn manifest_url(&self, reference: &Reference) -> (r: String)
        ensures
            r@ == self.url_spec() + "/v2/"@ + self.name_spec() + seq!['/'] + "manifests/"@
                + reference@,
    {
        let mut r = self.endpoint("manifests/");
        r.append(reference.as_str());
        r
    }

    /// `GET` here reads a blob: `<url>/v2/<name>/blobs/<digest>`.
    pub fn blob_url(&self, digest: &Digest) -> (r: String)
        ensures
            r@ == self.url_spec() + "/v2/"@ + self.name_spec() + seq!['/'] + "blobs/"@ + digest.text(),
    {
        let mut r = self.endpoint("blobs/");
        let d = digest.to_string();
        r.append(d.as_str());
        r
    }

    /// `POST` here opens a blob upload: `<url>/v2/<name>/blobs/uploads/`.
    pub fn upload_url(&self) -> (r: String)
        ensures
            r@ == self.url_spec() + "/v2/"@ + self.name_spec() + seq!['/'] + "blobs/uploads/"@,
    {
        self.endpoint("blobs/uploads/")
    }

    /// The `Authorization` value of a request: the kept token, if any.
    pub fn authorization(&self) -> (r: Option<String>)
        ensures
            match r {
                Some(v) => self.token_spec() matches Some(t) && v@ == "Bearer "@ + t,
                None => self.token_spec() is None,
            },
    {
        match &self.token {
            Some(t) => {
                let mut v = String::from_str("Bearer ");
                v.append(t.as_str());
                Some(v)
            },
            None => None,
        }
    }

    /// The `Authorization` value for a token request to `host`, from the
    /// stored credentials.
    pub fn basic_authorization(&self, host: &str) -> (r: Option<String>)
        requires
            self.wf(),
        ensures
            match r {
                Some(v) => self.auth_spec()@.contains_key(host@) && v@ == "Basic "@
                    + self.auth_spec()@[host@],
                None => !self.auth_spec()@.contains_key(host@),
            },
    {
        match self.auth.get(host) {
            Some(a) => {
                let mut v = String::from_str("Basic ");
                v.append(a.as_str());
                Some(v)
            },
            None => None,
        }
    }

    /// What to do with the response to a request: `status` is its HTTP
    /// status, `challenge` its `WWW-Authenticate` header and `body` its text.
    pub fn decide(&self, status: u16, challenge: Option<&str>, body: &str) -> (r: Decision)
        ensures
            status < 400 ==> r == Decision::Accept,
            status == 401 && self.token_spec() is Some ==> (r matches Decision::Reject(
                Error::AuthorizationFailed(u),
            ) && u@ == self.url_spec()),
            status == 401 && self.token_spec() is None ==> match challenge {
                None => r matches Decision::Reject(Error::UnsupportedAuthHeader(h)) && h@.len() == 0,
                Some(h) => match decode_challenge(h@) {
                    Some((u, sv, sc)) => r matches Decision::Authenticate(c) && c.url@ == u
                        && c.service@ == sv && c.scope@ == sc,
                    None => r matches Decision::Reject(e) && e.is_unsupported_auth_header(h@),
                },
            },
            status >= 400 && status != 401 ==> (r matches Decision::Reject(Error::RegistryError(b))
                && b@ == body@),
    {
        if status < 400 {
            return Decision::Accept;
        }
        if status == 401 {
            if self.token.is_some() {
                return Decision::Reject(Error::AuthorizationFailed(self.url.clone()));
            }
            return match challenge {
                Some(h) => match AuthChallenge::from_header(h) {
                    Ok(c) => Decision::Authenticate(c),
                    Err(e) => Decision::Reject(e),
                },
                None => Decision::Reject(Error::UnsupportedAuthHeader(String::new())),
            };
        }
        Decision::Reject(Error::RegistryError(body.to_owned()))
    }
}

/// The `Accept` value of a manifest request: the Docker v2 schema 2 and the
/// OCI manifest media types.
pub fn manifest_accept() -> (r: String)
    ensures
        r@ == "application/vnd.docker.distribution.manifest.v2+json, "@
            + crate::media_types::image_manifest_spec(),
{
    let mut r = String::from_str("application/vnd.docker.distribution.manifest.v2+json, ");
    let m = crate::media_types::image_manifest();
    r.append(m.as_str());
    r
}

/// The digest of a pushed blob: the one computed here, which the registry,
/// when it reports one, must confirm.
pub fn check_pushed_digest(local: &Digest, reported: Option<&str>) -> (r: Result<Digest, Error>)
    ensures
        match reported {
            None => r == Ok::<Digest, Error>(*local),
            Some(t) => if t@ == local.text() {
                r == Ok::<Digest, Error>(*local)
            } else {
                r is Err && r->Err_0 is DigestMismatch
            },
        },
{
    let d = local.duplicate();
    match reported {
        None => Ok(d),
        Some(t) => {
            let mine = local.to_string();
            let theirs = t.to_owned();
            if mine == theirs {
                Ok(d)
            } else {
                Err(Error::DigestMismatch(mine, theirs))
            }
        },
    }
}

} // verus!
