use ocipkg::distribution::client::{check_pushed_digest, manifest_accept};
use ocipkg::distribution::{AuthChallenge, Client, Decision, Name, Reference, StoredAuth};
use ocipkg::{Digest, Error, ImageName};

#[test]
fn bearer_challenge() {
    let c = AuthChallenge::from_header(
        r#"Bearer realm="https://ghcr.io/token",service="ghcr.io",scope="repository:x/y:pull""#,
    )
    .unwrap();
    assert_eq!(
        c,
        AuthChallenge {
            url: "https://ghcr.io/token".to_string(),
            service: "ghcr.io".to_string(),
            scope: "repository:x/y:pull".to_string(),
        }
    );
}

#[test]
fn challenge_last_setting_wins_and_unknown_keys_pass() {
    let c = AuthChallenge::from_header(
        r#"Bearer realm="a",service="s",scope="p",realm="b",extra="z""#,
    )
    .unwrap();
    assert_eq!(c.url, "b");
    assert_eq!(c.service, "s");
    assert_eq!(c.scope, "p");
}

#[test]
fn unsupported_challenges() {
    for h in [
        r#"Basic realm="a",service="s",scope="p""#,
        r#"Bearer realm="a",service="s""#,
        r#"Bearer realm="a",service,scope="p""#,
        "Bearer",
    ] {
        assert_eq!(
            AuthChallenge::from_header(h),
            Err(Error::UnsupportedAuthHeader(h.to_string()))
        );
    }
}

#[test]
fn stored_credentials() {
    let mut auth = StoredAuth::new();
    auth.add("ghcr.io", "user", "pass");
    assert_eq!(auth.get("ghcr.io"), Some("dXNlcjpwYXNz".to_string()));
    assert_eq!(auth.get("docker.io"), None);
    auth.add("ghcr.io", "other", "secret");
    assert_eq!(auth.entries().len(), 1);
    assert_eq!(auth.get("ghcr.io"), Some("b3RoZXI6c2VjcmV0".to_string()));
}

#[test]
fn credential_validity() {
    assert!(StoredAuth::is_valid("dXNlcjpwYXNz"));
    assert!(!StoredAuth::is_valid("dXNlcg=="));
    assert!(!StoredAuth::is_valid("YTpiOmM="));
    assert!(!StoredAuth::is_valid("!!!"));
}

#[test]
fn merge_keeps_valid_entries_later_wins() {
    let mut first = StoredAuth::new();
    first.insert("a.io", "dXNlcjpwYXNz".to_string());
    first.insert("b.io", "dXNlcjpwYXNz".to_string());
    let mut second = StoredAuth::new();
    second.insert("a.io", "b3RoZXI6c2VjcmV0".to_string());
    second.insert("b.io", "not base64!".to_string());
    second.insert("c.io", "dXNlcg==".to_string());
    let merged = StoredAuth::load_all(vec![first, second]).unwrap();
    assert_eq!(merged.get("a.io"), Some("b3RoZXI6c2VjcmV0".to_string()));
    assert_eq!(merged.get("b.io"), Some("dXNlcjpwYXNz".to_string()));
    assert_eq!(merged.get("c.io"), None);
    assert_eq!(StoredAuth::load_all(Vec::new()).err(), Some(Error::NoValidAuthInfo));
}

#[test]
fn load_drops_invalid_entries() {
    let mut raw = StoredAuth::new();
    raw.insert("a.io", "dXNlcjpwYXNz".to_string());
    raw.insert("b.io", "dXNlcg==".to_string());
    let loaded = StoredAuth::load(raw);
    assert_eq!(loaded.entries().len(), 1);
    assert_eq!(loaded.get("b.io"), None);
}

fn test_client() -> Client {
    Client::new(
        "http://localhost:5000".to_string(),
        Name::new("test_repo").unwrap(),
        StoredAuth::new(),
    )
}

#[test]
fn client_endpoints() {
    let client = test_client();
    assert_eq!(client.tags_url(), "http://localhost:5000/v2/test_repo/tags/list");
    assert_eq!(
        client.manifest_url(&Reference::new("tag1").unwrap()),
        "http://localhost:5000/v2/test_repo/manifests/tag1"
    );
    let d = Digest::new("sha256:abc").unwrap();
    assert_eq!(client.blob_url(&d), "http://localhost:5000/v2/test_repo/blobs/sha256:abc");
    assert_eq!(client.upload_url(), "http://localhost:5000/v2/test_repo/blobs/uploads/");
    let from_name =
        Client::from_image_name(&ImageName::parse("localhost:5000/test_repo:tag1").unwrap(), StoredAuth::new());
    assert_eq!(from_name.tags_url(), client.tags_url());
}

#[test]
fn client_auth_decisions() {
    let mut client = test_client();
    assert_eq!(client.decide(200, None, ""), Decision::Accept);
    assert_eq!(client.authorization(), None);
    let header = r#"Bearer realm="http://localhost:5000/token",service="s",scope="p""#;
    match client.decide(401, Some(header), "") {
        Decision::Authenticate(c) => assert_eq!(c.url, "http://localhost:5000/token"),
        other => panic!("unexpected {:?}", other),
    }
    assert_eq!(
        client.decide(401, None, ""),
        Decision::Reject(Error::UnsupportedAuthHeader(String::new()))
    );
    assert_eq!(
        client.decide(404, None, "{\"errors\":[]}"),
        Decision::Reject(Error::RegistryError("{\"errors\":[]}".to_string()))
    );
    client.set_token("tok".to_string());
    assert_eq!(client.authorization(), Some("Bearer tok".to_string()));
    // a second 401, once a token was sent, is final
    assert_eq!(
        client.decide(401, Some(header), ""),
        Decision::Reject(Error::AuthorizationFailed("http://localhost:5000".to_string()))
    );
}

#[test]
fn basic_authorization_for_token_requests() {
    let mut client = test_client();
    client.add_basic_auth("ghcr.io", "user", "pass");
    assert_eq!(
        client.basic_authorization("ghcr.io"),
        Some("Basic dXNlcjpwYXNz".to_string())
    );
    assert_eq!(client.basic_authorization("quay.io"), None);
}

#[test]
fn pushed_digest_must_match() {
    let d = Digest::from_buf_sha256(b"test string");
    assert_eq!(check_pushed_digest(&d, None), Ok(d.clone()));
    assert_eq!(check_pushed_digest(&d, Some(&d.to_string())), Ok(d.clone()));
    assert!(matches!(
        check_pushed_digest(&d, Some("sha256:00")),
        Err(Error::DigestMismatch(_, _))
    ));
}

#[test]
fn manifest_request_accepts_both_media_types() {
    assert_eq!(
        manifest_accept(),
        "application/vnd.docker.distribution.manifest.v2+json, application/vnd.oci.image.manifest.v1+json"
    );
}
