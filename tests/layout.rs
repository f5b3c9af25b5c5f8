use ocipkg::image::manifest::{get_name_from_index, Annotation, Descriptor, ImageIndex, ImageManifest};
use ocipkg::image::oci_artifact::{artifact_type_of, placeholder_config};
use ocipkg::image::{artifact_version, copy, ArtifactVersion, Builder, Config, Image, ImageBuilder, OciArtifactBuilder};
use ocipkg::local::{get_image_list, image_dir, is_image_dir, path_to_image_name};
use ocipkg::image::artifact::{layer_format, prepare_destination, LayerFormat};
use ocipkg::image::layout::{check_copied, copy_blob, copy_blobs};
use ocipkg::image::oci_artifact::{fetch_config, fetch_layers};
use ocipkg::media_types;
use ocipkg::{Digest, Error, ImageName};

/// A layout kept in memory.
struct Memory {
    name: ImageName,
    blobs: Vec<(Digest, Vec<u8>)>,
    manifest: Option<ImageManifest>,
    reads: usize,
}

impl Memory {
    fn new(name: &str) -> Memory {
        Memory { name: ImageName::parse(name).unwrap(), blobs: Vec::new(), manifest: None, reads: 0 }
    }
}

impl ImageBuilder for Memory {
    type Image = Memory;

    fn add_blob(&mut self, data: &[u8]) -> Result<(Digest, u64), Error> {
        let d = Digest::from_buf_sha256(data);
        self.blobs.push((d.clone(), data.to_vec()));
        Ok((d, data.len() as u64))
    }

    fn build(mut self, manifest: ImageManifest) -> Result<Memory, Error> {
        self.manifest = Some(manifest);
        Ok(self)
    }
}

impl Image for Memory {
    fn get_name(&mut self) -> Result<ImageName, Error> {
        Ok(self.name.clone())
    }

    fn get_blob(&mut self, digest: &Digest) -> Result<Vec<u8>, Error> {
        self.reads += 1;
        self.blobs
            .iter()
            .find(|(d, _)| d == digest)
            .map(|(_, b)| b.clone())
            .ok_or(Error::UnknownDigest(digest.to_string()))
    }

    fn get_manifest(&mut self) -> Result<ImageManifest, Error> {
        self.manifest.clone().ok_or(Error::MissingManifest)
    }
}

fn descriptor(name: Option<&str>) -> Descriptor {
    Descriptor {
        media_type: media_types::image_manifest(),
        size: 10,
        digest: Digest::new("sha256:abc").unwrap(),
        annotations: name
            .map(|n| {
                vec![Annotation {
                    key: "org.opencontainers.image.ref.name".to_string(),
                    value: n.to_string(),
                }]
            })
            .unwrap_or_default(),
    }
}

#[test]
fn index_with_one_named_manifest() {
    let index = ImageIndex { schema_version: 2, manifests: vec![descriptor(Some("registry-1.docker.io/test:latest"))] };
    assert_eq!(get_name_from_index(&index).unwrap(), ImageName::parse("test").unwrap());
    assert_eq!(index.manifest_digest().unwrap().to_string(), "sha256:abc");
}

#[test]
fn index_with_several_manifests_is_refused() {
    let index = ImageIndex {
        schema_version: 2,
        manifests: vec![descriptor(Some("a")), descriptor(Some("b"))],
    };
    assert_eq!(get_name_from_index(&index), Err(Error::MultipleManifests(2)));
    assert_eq!(index.manifest_digest(), Err(Error::MultipleManifests(2)));
}

#[test]
fn index_without_manifest_or_name() {
    let empty = ImageIndex { schema_version: 2, manifests: Vec::new() };
    assert_eq!(get_name_from_index(&empty), Err(Error::MissingManifest));
    assert_eq!(empty.manifest_digest(), Err(Error::MissingManifest));
    let unnamed = ImageIndex { schema_version: 2, manifests: vec![descriptor(None)] };
    assert_eq!(get_name_from_index(&unnamed), Err(Error::MissingManifestName));
}

#[test]
fn builder_reports_sha256_and_size() {
    let mut b = Memory::new("test");
    let (d, s) = b.add_blob(b"hello").unwrap();
    assert_eq!(s, 5);
    assert_eq!(d.to_string(), "sha256:2cf24dba5fb0a30e26e83b2ac5b9e29e1b161e5c1fa7425e73043362938b9824");
    let mut img = b.build(ImageManifest {
        schema_version: 2,
        artifact_type: None,
        config: descriptor(None),
        layers: Vec::new(),
        annotations: Vec::new(),
    })
    .unwrap();
    assert_eq!(img.get_blob(&d).unwrap(), b"hello".to_vec());
}

fn sample_artifact() -> Memory {
    let mut b = OciArtifactBuilder::new(Memory::new("registry-1.docker.io/test:latest"), "application/x-test".to_string()).unwrap();
    b.add_layer("application/x-layer".to_string(), b"layer one", Vec::new()).unwrap();
    b.add_layer("application/x-layer".to_string(), b"layer two", Vec::new()).unwrap();
    b.add_description("a test".to_string());
    b.build().unwrap().into_inner()
}

#[test]
fn artifact_builder_assembles_manifest() {
    let mut b = OciArtifactBuilder::new(Memory::new("test"), "application/x-test".to_string()).unwrap();
    let m = b.manifest();
    assert_eq!(m.config.media_type, "application/vnd.oci.empty.v1+json");
    assert_eq!(m.config.size, 2);
    assert_eq!(
        m.config.digest.to_string(),
        "sha256:44136fa355b3678a1146ad16f7e8649e94fb4fc21fe77e8310c060f61caaff8a"
    );
    let d = b.add_layer("application/x-layer".to_string(), b"abc", Vec::new()).unwrap();
    assert_eq!(d.size, 3);
    assert_eq!(b.manifest().layers, vec![d]);
    b.add_annotation("k".to_string(), "1".to_string());
    b.add_annotation("j".to_string(), "2".to_string());
    b.add_annotation("k".to_string(), "3".to_string());
    let keys: Vec<(String, String)> =
        b.manifest().annotations.iter().map(|a| (a.key.clone(), a.value.clone())).collect();
    assert_eq!(keys, vec![("k".to_string(), "3".to_string()), ("j".to_string(), "2".to_string())]);
    let c = b.add_config("application/x-config".to_string(), b"{\"a\":1}", Vec::new()).unwrap();
    assert_eq!(b.manifest().config, c);
}

#[test]
fn artifact_reader_skips_placeholder_config() {
    let mut layout = sample_artifact();
    let m = layout.get_manifest().unwrap();
    assert_eq!(artifact_type_of(&m), Ok("application/x-test".to_string()));
    let (d, blob) = placeholder_config(&m).unwrap();
    assert_eq!(d.media_type, "application/vnd.oci.empty.v1+json");
    assert_eq!(blob, b"{}".to_vec());
    let mut art = ocipkg::image::OciArtifact::new(layout);
    let before = art.layout().reads;
    let (_, blob) = art.get_config().unwrap();
    assert_eq!(blob, b"{}".to_vec());
    assert_eq!(art.layout().reads, before);
    let layers = art.get_layers().unwrap();
    assert_eq!(layers.len(), 2);
    assert_eq!(layers[1].1, b"layer two".to_vec());
    assert_eq!(art.artifact_type(), Ok("application/x-test".to_string()));
}

#[test]
fn copy_preserves_descriptors() {
    let mut source = sample_artifact();
    let target = Memory::new("registry-1.docker.io/test:latest");
    let (mut copied, handed) = copy(&mut source, target).unwrap();
    let m_source = source.get_manifest().unwrap();
    let m_copied = copied.get_manifest().unwrap();
    assert_eq!(m_source, m_copied);
    assert_eq!(handed, m_source);
    for layer in &m_copied.layers {
        assert_eq!(copied.get_blob(&layer.digest).unwrap(), source.get_blob(&layer.digest).unwrap());
    }
}

#[test]
fn copy_detects_tampered_blob() {
    let mut source = sample_artifact();
    let digest = source.manifest.as_ref().unwrap().layers[0].digest.clone();
    for (d, b) in source.blobs.iter_mut() {
        if *d == digest {
            *b = b"tampered".to_vec();
        }
    }
    let target = Memory::new("test");
    assert!(matches!(copy(&mut source, target), Err(Error::DigestMismatch(_, _))));
}

#[test]
fn ocipkg_config_lists_files_in_order() {
    let mut b = Builder::new(Memory::new("registry-1.docker.io/test:latest")).unwrap();
    b.append_layer(b"first layer", vec!["a.txt".to_string(), "b.txt".to_string()]).unwrap();
    b.append_layer(b"second layer", vec!["c.txt".to_string()]).unwrap();
    assert_eq!(b.config().files(), vec!["a.txt".to_string(), "b.txt".to_string(), "c.txt".to_string()]);
    let layer_digest = Digest::from_buf_sha256(b"first layer");
    assert_eq!(b.config().layers()[0].digest, layer_digest);
    let mut img = b.build(b"{\"layers\":{}}").unwrap();
    let m = img.get_manifest().unwrap();
    assert_eq!(m.config.media_type, "application/vnd.ocipkg.v1.config+json");
    assert_eq!(m.layers[0].media_type, "application/vnd.ocipkg.v1.layer.tar+gzip");
    assert_eq!(artifact_version(&m), Ok(ArtifactVersion::V1));
}

#[test]
fn config_replaces_a_layer_added_again() {
    let mut c = Config::new();
    let d1 = Digest::new("sha256:aa").unwrap();
    let d2 = Digest::new("sha256:bb").unwrap();
    c.add_layer(d1.clone(), vec!["x".to_string()]);
    c.add_layer(d2, vec!["y".to_string()]);
    c.add_layer(d1, vec!["z".to_string()]);
    assert_eq!(c.files(), vec!["z".to_string(), "y".to_string()]);
}

#[test]
fn artifact_version_needs_type() {
    let mut m = sample_artifact().get_manifest().unwrap();
    assert_eq!(artifact_version(&m), Ok(ArtifactVersion::V0));
    m.artifact_type = None;
    assert_eq!(artifact_version(&m), Err(Error::MissingArtifactType));
    assert_eq!(artifact_type_of(&m), Err(Error::MissingArtifactType));
}

#[test]
fn local_store_paths() {
    let name = ImageName::parse("localhost:5000/repo:tag").unwrap();
    assert_eq!(image_dir("/data", &name), "/data/localhost__5000/repo/__tag");
    assert_eq!(path_to_image_name("/data", "/data/localhost__5000/repo/__tag").unwrap(), name);
    assert_eq!(
        path_to_image_name("/data", "/other/localhost/repo/__tag"),
        Err(Error::InvalidName("/other/localhost/repo/__tag".to_string()))
    );
    assert!(is_image_dir("/data/ghcr.io/a/__latest"));
    assert!(!is_image_dir("/data/ghcr.io/a"));
    let dirs = vec![
        "/data/ghcr.io".to_string(),
        "/data/ghcr.io/a".to_string(),
        "/data/ghcr.io/a/__latest".to_string(),
        "/data/localhost__5000/repo/__tag".to_string(),
    ];
    let list = get_image_list("/data", &dirs).unwrap();
    assert_eq!(list, vec![ImageName::parse("ghcr.io/a:latest").unwrap(), name]);
}

#[test]
fn media_type_names() {
    assert_eq!(media_types::artifact(), "application/vnd.ocipkg.v1.artifact");
    assert_eq!(media_types::config_json(), "application/vnd.ocipkg.v1.config+json");
    assert_eq!(media_types::layer_tar_gzip(), "application/vnd.ocipkg.v1.layer.tar+gzip");
    assert!(media_types::is_imageindex("application/vnd.oci.image.index.v1+json"));
    assert!(media_types::is_imageindex("application/vnd.docker.distribution.manifest.list.v2+json"));
    assert!(!media_types::is_imageindex("application/vnd.oci.image.manifest.v1+json"));
}

#[test]
fn copied_blob_checks() {
    let expected = descriptor(None);
    let same = Digest::new("sha256:abc").unwrap();
    let other = Digest::new("sha256:abd").unwrap();
    assert_eq!(check_copied(&expected, &same, 10), Ok(()));
    assert_eq!(check_copied(&expected, &same, 11), Err(Error::SizeMismatch(10, 11)));
    assert_eq!(
        check_copied(&expected, &other, 10),
        Err(Error::DigestMismatch("sha256:abc".to_string(), "sha256:abd".to_string()))
    );
}

#[test]
fn unpacking_rules() {
    assert_eq!(prepare_destination("/d", false, false), Ok(false));
    assert_eq!(prepare_destination("/d", true, true), Ok(true));
    assert_eq!(prepare_destination("/d", true, false), Err(Error::ImageAlreadyExists("/d".to_string())));
    assert_eq!(
        layer_format(ArtifactVersion::V1, "application/vnd.ocipkg.v1.layer.tar+gzip"),
        Ok(LayerFormat::TarGzip)
    );
    assert_eq!(
        layer_format(ArtifactVersion::V1, "application/vnd.oci.image.layer.v1.tar"),
        Err(Error::UnsupportedLayer("application/vnd.oci.image.layer.v1.tar".to_string()))
    );
    assert_eq!(
        layer_format(ArtifactVersion::V0, "application/vnd.oci.image.layer.v1.tar"),
        Ok(LayerFormat::Tar)
    );
    assert_eq!(
        layer_format(ArtifactVersion::V0, "application/vnd.oci.image.layer.v1.tar+gzip"),
        Ok(LayerFormat::TarGzip)
    );
}

#[test]
fn index_for_a_named_manifest() {
    let name = ImageName::parse("registry-1.docker.io/test:latest").unwrap();
    let d = Digest::from_buf_sha256(b"{}");
    let index = ImageIndex::for_manifest(d.clone(), 2, Some(&name));
    assert_eq!(index.schema_version, 2);
    assert_eq!(index.manifests.len(), 1);
    assert_eq!(index.manifests[0].media_type, "application/vnd.oci.image.manifest.v1+json");
    assert_eq!(index.manifests[0].annotations[0].value, "registry-1.docker.io/test:latest");
    assert_eq!(get_name_from_index(&index).unwrap(), name);
    assert_eq!(index.manifest_digest().unwrap(), d);
    let unnamed = ImageIndex::for_manifest(d, 2, None);
    assert_eq!(get_name_from_index(&unnamed), Err(Error::MissingManifestName));
}

#[test]
fn copy_blob_refuses_a_mismatch() {
    let mut target = Memory::new("test");
    let blob = b"payload";
    let good = Descriptor {
        media_type: "application/x-layer".to_string(),
        size: blob.len() as u64,
        digest: Digest::from_buf_sha256(blob),
        annotations: Vec::new(),
    };
    assert_eq!(copy_blob(&mut target, &good, blob), Ok(()));
    let mut wrong_size = good.clone();
    wrong_size.size = 3;
    assert_eq!(
        copy_blob(&mut target, &wrong_size, blob),
        Err(Error::SizeMismatch(3, blob.len() as u64))
    );
    let mut wrong_digest = good.clone();
    wrong_digest.digest = Digest::from_buf_sha256(b"other");
    assert!(matches!(copy_blob(&mut target, &wrong_digest, blob), Err(Error::DigestMismatch(_, _))));
}

#[test]
fn copy_blobs_gives_the_manifest_back() {
    let mut source = sample_artifact();
    let m = source.get_manifest().unwrap();
    let mut target = Memory::new("test");
    let back = copy_blobs(&mut source, &mut target, m.clone()).unwrap();
    assert_eq!(back, m);
    // layers in order, then the config
    let digests: Vec<Digest> = target.blobs.iter().map(|(d, _)| d.clone()).collect();
    let mut expected: Vec<Digest> = m.layers.iter().map(|l| l.digest.clone()).collect();
    expected.push(m.config.digest.clone());
    assert_eq!(digests, expected);
}

#[test]
fn fetched_config_and_layers_follow_the_manifest() {
    let mut layout = sample_artifact();
    let m = layout.get_manifest().unwrap();
    let (d, b) = fetch_config(&mut layout, &m).unwrap();
    assert_eq!(d, m.config);
    assert_eq!(b, b"{}".to_vec());
    let layers = fetch_layers(&mut layout, &m).unwrap();
    assert_eq!(layers.len(), m.layers.len());
    assert_eq!(layers[0], (m.layers[0].clone(), b"layer one".to_vec()));
    assert_eq!(layers[1], (m.layers[1].clone(), b"layer two".to_vec()));
}

#[test]
fn fetched_config_reads_a_real_config() {
    let mut b = OciArtifactBuilder::new(Memory::new("test"), "application/x-test".to_string()).unwrap();
    b.add_config("application/x-config".to_string(), b"{\"k\":1}", Vec::new()).unwrap();
    let mut layout = b.build().unwrap().into_inner();
    let m = layout.get_manifest().unwrap();
    let (d, blob) = fetch_config(&mut layout, &m).unwrap();
    assert_eq!(d, m.config);
    assert_eq!(blob, b"{\"k\":1}".to_vec());
}

#[test]
fn ocipkg_builder_finishes_with_its_config() {
    let mut b = Builder::new(Memory::new("registry-1.docker.io/test:latest")).unwrap();
    b.append_layer(b"layer", vec!["a.txt".to_string()]).unwrap();
    let text = b"{\"layers\":{}}";
    let (m, layout) = b.finish(text).unwrap();
    assert_eq!(m.config.media_type, "application/vnd.ocipkg.v1.config+json");
    assert_eq!(m.config.digest, Digest::from_buf_sha256(text));
    assert_eq!(m.config.size, text.len() as u64);
    assert_eq!(m.layers.len(), 1);
    assert_eq!(m.artifact_type, Some("application/vnd.ocipkg.v1.artifact".to_string()));
    assert!(layout.blobs.iter().any(|(d, _)| *d == m.config.digest));
}

#[test]
fn artifact_builder_hands_its_manifest_on() {
    let mut b = OciArtifactBuilder::new(Memory::new("test"), "application/x-test".to_string()).unwrap();
    b.add_layer("application/x-layer".to_string(), b"x", Vec::new()).unwrap();
    let assembled = b.manifest().clone();
    let (m, _layout) = b.into_parts();
    assert_eq!(m, assembled);
}
