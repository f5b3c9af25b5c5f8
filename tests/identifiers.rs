use ocipkg::distribution::{Name, Reference};
use ocipkg::{Digest, Error, ImageName};

#[test]
fn name_name() {
    assert_eq!(Name::new("ghcr.io").unwrap().as_str(), "ghcr.io");
    // Head must be alphanum
    assert!(Name::new("_ghcr.io").is_err());
    assert!(Name::new("/ghcr.io").is_err());
    // Capital letter is not allowed
    assert!(Name::new("ghcr.io/Termoshtt").is_err());
}

#[test]
fn reference_reference() {
    assert_eq!(Reference::new("latest").unwrap().as_str(), "latest");
    assert_eq!(
        Reference::new("sha256:a1b2c3d4a1b2c3d4a1b2c3d4a1b2c3d4a1b2c3d4a1b2c3d4a1b2c3d4a1b2c3d4")
            .unwrap()
            .as_str(),
        "sha256:a1b2c3d4a1b2c3d4a1b2c3d4a1b2c3d4a1b2c3d4a1b2c3d4a1b2c3d4a1b2c3d4"
    );
    // @ is not allowed
    assert!(Reference::new("my_super_tag@2").is_err());
    // Upper ASCII is encoded
    assert_eq!(Reference::new("SuperTag").unwrap().encoded(), "%53uper%54ag");
    assert_eq!(
        Reference::new("sha256:a1b2c3d4a1b2c3d4a1b2c3d4a1b2c3d4a1b2c3d4a1b2c3d4a1b2c3d4a1b2c3d4")
            .unwrap()
            .encoded(),
        "sha256%3Aa1b2c3d4a1b2c3d4a1b2c3d4a1b2c3d4a1b2c3d4a1b2c3d4a1b2c3d4a1b2c3d4"
    );
}

fn check_path(name: &str, path: &str) {
    let image_name = ImageName::parse(name).unwrap();
    assert_eq!(image_name.as_path(), path);
    assert_eq!(ImageName::from_path(&image_name.as_path()).unwrap(), image_name);
}

#[test]
fn as_path() {
    check_path("localhost:5000/test_repo:latest", "localhost__5000/test_repo/__latest");
    check_path("ubuntu:20.04", "registry-1.docker.io/ubuntu/__20.04");
    check_path("alpine", "registry-1.docker.io/alpine/__latest");
    check_path(
        "quay.io/jitesoft/alpine:sha256:6755355f801f8e3694bffb1a925786813462cea16f1ce2b0290b6a48acf2500c",
        "quay.io/jitesoft/alpine/__sha256__6755355f801f8e3694bffb1a925786813462cea16f1ce2b0290b6a48acf2500c",
    );
}

fn check_escaped(name: &str, path: &str) {
    let image_name = ImageName::parse(name).unwrap();
    let escaped = image_name.as_escaped_path();
    assert_eq!(escaped, path);
    assert_eq!(ImageName::from_escaped_path(&escaped).unwrap(), image_name);
}

#[test]
fn escaped_path() {
    check_escaped("localhost:5000/test_repo:latest", "localhost%3A5000/test_repo%3Alatest");
    check_escaped("ubuntu:20.04", "registry-1.docker.io/ubuntu%3A20.04");
    check_escaped("alpine", "registry-1.docker.io/alpine%3Alatest");
    check_escaped(
        "quay.io/jitesoft/alpine:sha256:6755355f801f8e3694bffb1a925786813462cea16f1ce2b0290b6a48acf2500c",
        "quay.io/jitesoft/alpine%3Asha256%3A6755355f801f8e3694bffb1a925786813462cea16f1ce2b0290b6a48acf2500c",
    );
}

#[test]
fn digest() {
    let digest =
        Digest::new("sha256:e692418e4cbaf90ca69d05a66403747baa33ee08806650b51fab815ad7fc331f")
            .unwrap();
    assert_eq!(digest.algorithm, "sha256");
    assert_eq!(
        digest.encoded,
        "e692418e4cbaf90ca69d05a66403747baa33ee08806650b51fab815ad7fc331f"
    );
}

// The default registry is `registry-1.docker.io`, so an image name without a
// host resolves there.
#[test]
fn image_name() {
    let name = ImageName::parse("ghcr.io/termoshtt/ocipkg/testing:latest").unwrap();
    assert_eq!(name.registry_url(), "https://ghcr.io");
    assert_eq!(name.name.as_str(), "termoshtt/ocipkg/testing");
    assert_eq!(name.reference.as_str(), "latest");

    let name = ImageName::parse("ubuntu:20.04").unwrap();
    assert_eq!(name.registry_url(), "https://registry-1.docker.io");
    assert_eq!(name.name.as_str(), "ubuntu");
    assert_eq!(name.reference.as_str(), "20.04");

    let name = ImageName::parse("alpine").unwrap();
    assert_eq!(name.registry_url(), "https://registry-1.docker.io");
    assert_eq!(name.name.as_str(), "alpine");
    assert_eq!(name.reference.as_str(), "latest");
}

#[test]
fn parse_host_with_port() {
    let name = ImageName::parse("localhost:5000/repo:tag").unwrap();
    assert_eq!(name.hostname, "localhost");
    assert_eq!(name.port, Some(5000));
    assert_eq!(name.name.as_str(), "repo");
    assert_eq!(name.reference.as_str(), "tag");
    assert_eq!(name.registry_url(), "http://localhost:5000");
    assert_eq!(name.as_path(), "localhost__5000/repo/__tag");
    assert_eq!(name.to_string(), "localhost:5000/repo:tag");
}

#[test]
fn parse_errors_by_kind() {
    assert_eq!(
        ImageName::parse("localhost:abc/repo"),
        Err(Error::InvalidPort("abc".to_string()))
    );
    assert_eq!(
        ImageName::parse("localhost:65536/repo"),
        Err(Error::InvalidPort("65536".to_string()))
    );
    assert_eq!(
        ImageName::parse("ghcr.io/Upper/repo"),
        Err(Error::InvalidName("Upper/repo".to_string()))
    );
    assert_eq!(
        ImageName::parse("ghcr.io/repo:bad@tag"),
        Err(Error::InvalidReference("bad@tag".to_string()))
    );
}

#[test]
fn port_edges() {
    assert_eq!(ImageName::parse("h:65535/x").unwrap().port, Some(65535));
    assert_eq!(ImageName::parse("h:0/x").unwrap().port, Some(0));
    assert_eq!(ImageName::parse("h:+80/x").unwrap().port, Some(80));
    assert!(ImageName::parse("h:/x").is_err());
    assert!(ImageName::parse("h:+/x").is_err());
}

#[test]
fn name_separators() {
    assert!(Name::new("a__b").is_ok());
    assert!(Name::new("a---b/c.d_e").is_ok());
    assert!(Name::new("a___b").is_err());
    assert!(Name::new("a..b").is_err());
    assert!(Name::new("a-_b").is_err());
    assert!(Name::new("a//b").is_err());
    assert!(Name::new("a/").is_err());
    assert!(Name::new("").is_err());
}

#[test]
fn tag_length_limit() {
    let long = "a".repeat(128);
    assert!(Reference::new(&long).is_ok());
    let too_long = "a".repeat(129);
    assert_eq!(
        Reference::new(&too_long),
        Err(Error::InvalidReference(too_long.clone()))
    );
}

#[test]
fn digest_errors() {
    for bad in ["sha256", "sha256:ab:cd", "SHA256:abc", ":abc", "sha256:", "sha256:ab+c", "sha_:abc"] {
        assert_eq!(Digest::new(bad), Err(Error::InvalidDigest(bad.to_string())));
    }
    assert!(Digest::new("sha256+b64u:abc=_-").is_ok());
}

#[test]
fn digest_text_and_path() {
    let d = Digest::new("sha256:abc").unwrap();
    assert_eq!(d.to_string(), "sha256:abc");
    assert_eq!(d.as_path(), "blobs/sha256/abc");
}

#[test]
fn sha256_digests() {
    let d = Digest::from_buf_sha256(b"");
    assert_eq!(
        d.to_string(),
        "sha256:e3b0c44298fc1c149afbf4c8996fb92427ae41e4649b934ca495991b7852b855"
    );
    let d = Digest::from_buf_sha256(b"{}");
    assert_eq!(
        d.to_string(),
        "sha256:44136fa355b3678a1146ad16f7e8649e94fb4fc21fe77e8310c060f61caaff8a"
    );
}

#[test]
fn store_path_round_trip_for_digest_reference() {
    let name = ImageName::parse("localhost:5000/a/b:sha256:0123abcd").unwrap();
    assert_eq!(name.as_path(), "localhost__5000/a/b/__sha256__0123abcd");
    assert_eq!(ImageName::from_path(&name.as_path()).unwrap(), name);
}

#[test]
fn from_path_errors() {
    assert_eq!(
        ImageName::from_path("host/__tag"),
        Err(Error::InvalidName("host/__tag".to_string()))
    );
    assert_eq!(
        ImageName::from_path("host/repo/tag"),
        Err(Error::InvalidReference("tag".to_string()))
    );
    assert_eq!(
        ImageName::from_path("host__x/repo/__tag"),
        Err(Error::InvalidPort("x".to_string()))
    );
}

#[test]
fn encoded_reference_decodes_back() {
    let r = Reference::new("sha256:ABCdef").unwrap();
    let e = r.encoded();
    assert_eq!(e, "sha256%3A%41%42%43def");
    assert_eq!(urlencoding::decode(&e).unwrap(), "sha256:ABCdef");
}

#[test]
fn text_form_parses_back() {
    for text in [
        "localhost:5000/test_repo:latest",
        "ghcr.io/termoshtt/ocipkg/testing:v1.0",
        "quay.io/jitesoft/alpine:sha256:6755355f801f8e3694bffb1a925786813462cea16f1ce2b0290b6a48acf2500c",
    ] {
        let name = ImageName::parse(text).unwrap();
        assert_eq!(name.to_string(), text);
        assert_eq!(ImageName::parse(&name.to_string()).unwrap(), name);
    }
}
