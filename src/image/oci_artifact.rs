//! OCI artifacts over any layout: a manifest with `artifactType`, a config
//! blob (by default the `{}` placeholder) and layers of any media type.

use vstd::prelude::*;

use crate::digest::{hex_lower, sha256_of};
use crate::error::Error;
use crate::image::layout::{blob_matches, describes_blob, describes_blobs, Image, ImageBuilder};
use crate::image::manifest::{Annotation, Descriptor, ImageManifest};
use crate::image_name::ImageName;
use crate::media_types::{empty_json, empty_json_spec};

verus! {

/// The `(key, value)` texts of annotations.
pub open spec fn annotation_texts(a: Seq<Annotation>) -> Seq<(Seq<char>, Seq<char>)> {
    a.map_values(|x: Annotation| (x.key@, x.value@))
}

/// The index of the first pair with key `k`, or -1.
pub open spec fn first_key_index(a: Seq<(Seq<char>, Seq<char>)>, k: Seq<char>) -> int
    decreases a.len(),
{
    if a.len() == 0 {
        -1
    } else if a[0].0 == k {
        0
    } else {
        let j = first_key_index(a.drop_first(), k);
        if j < 0 {
            -1
        } else {
            j + 1
        }
    }
}

/// Annotations after setting `k` to `v`: the first pair with key `k` takes the
/// new value, or the pair is appended.
pub open spec fn with_annotation(a: Seq<(Seq<char>, Seq<char>)>, k: Seq<char>, v: Seq<char>) -> Seq<
    (Seq<char>, Seq<char>),
> {
    let i = first_key_index(a, k);
    if i >= 0 {
        a.update(i, (k, v))
    } else {
        a.push((k, v))
    }
}

/// Sets annotation `key` to `value`, replacing an earlier value.
pub fn set_annotation(a: &mut Vec<Annotation>, key: String, value: String)
    ensures
        annotation_texts(final(a)@) == with_annotation(annotation_texts(old(a)@), key@, value@),
{
    let ghost t = annotation_texts(a@);
    let mut i: usize = 0;
    assert(t.subrange(0, t.len() as int) =~= t);
    while i < a.len()
        invariant
            t == annotation_texts(a@),
            a@ == old(a)@,
            i <= a@.len(),
            first_key_index(t, key@) == (if first_key_index(t.subrange(i as int, t.len() as int), key@)
                < 0 {
                -1
            } else {
                i + first_key_index(t.subrange(i as int, t.len() as int), key@)
            }),
        decreases a@.len() - i,
    {
        let ghost rest = t.subrange(i as int, t.len() as int);
        assert(rest[0] == t[i as int]);
        if a[i].key == key {
            let ghost kv = key@;
            let ghost vv = value@;
            a.set(i, Annotation { key, value });
            assert(annotation_texts(a@) =~= t.update(i as int, (kv, vv)));
            return;
        }
        assert(rest.drop_first() =~= t.subrange(i + 1, t.len() as int));
        i = i + 1;
    }
    let ghost kv = key@;
    let ghost vv = value@;
    a.push(Annotation { key, value });
    assert(annotation_texts(a@) =~= t.push((kv, vv)));
}

/// Stores the `{}` placeholder blob and describes it.
pub fn add_empty_json<T: ImageBuilder>(builder: &mut T) -> (r: Result<Descriptor, Error>)
    ensures
        r matches Ok(d) ==> d.media_type@ == empty_json_spec() && d.size == 2
            && d.digest.algorithm@ == "sha256"@ && d.digest.encoded@ == hex_lower(
            sha256_of(seq![123u8, 125u8]),
        ) && d.annotations@.len() == 0,
{
    let blob: Vec<u8> = vec![123u8, 125u8];
    assert(blob@ =~= seq![123u8, 125u8]);
    match builder.add_blob(blob.as_slice()) {
        Ok((digest, size)) => Ok(
            Descriptor { media_type: empty_json(), size, digest, annotations: Vec::new() },
        ),
        Err(e) => Err(e),
    }
}

/// Builds an OCI artifact on a layout builder.
pub struct OciArtifactBuilder<L: ImageBuilder> {
    manifest: ImageManifest,
    layout: L,
}

impl<L: ImageBuilder> OciArtifactBuilder<L> {
    pub closed spec fn manifest_spec(&self) -> ImageManifest {
        self.manifest
    }

    /// Every descriptor of the manifest has the digest and size of a blob
    /// that went to the layout.
    pub open spec fn wf(&self) -> bool {
        describes_blobs(self.manifest_spec())
    }

    /// The manifest as assembled so far.
    pub fn manifest(&self) -> (r: &ImageManifest)
        ensures
            *r == self.manifest_spec(),
    {
        &self.manifest
    }

    /// Starts an artifact of `artifact_type` whose config is the `{}` placeholder.
    pub fn new(layout: L, artifact_type: String) -> (r: Result<Self, Error>)
        ensures
            r matches Ok(b) ==> b.wf(),
            r matches Ok(b) ==> {
                let m = b.manifest_spec();
                &&& m.schema_version == 2
                &&& m.artifact_type matches Some(t) && t@ == artifact_type@
                &&& m.config.media_type@ == empty_json_spec()
                &&& m.config.size == 2
                &&& m.config.digest.encoded@ == hex_lower(sha256_of(seq![123u8, 125u8]))
                &&& m.layers@.len() == 0
                &&& m.annotations@.len() == 0
            },
    {
        let mut layout = layout;
        let config = match add_empty_json(&mut layout) {
            Ok(d) => d,
            Err(e) => {
                return Err(e);
            },
        };
        assert(blob_matches(config, seq![123u8, 125u8]));
        let manifest = ImageManifest {
            schema_version: 2,
            artifact_type: Some(artifact_type),
            config,
            layers: Vec::new(),
            annotations: Vec::new(),
        };
        Ok(OciArtifactBuilder { manifest, layout })
    }

    /// Stores `blob` as the config of the artifact.
    pub fn add_config(&mut self, config_type: String, blob: &[u8], annotations: Vec<Annotation>) -> (r:
        Result<Descriptor, Error>)
        requires
            old(self).wf(),
        ensures
            final(self).wf(),
            match r {
                Ok(d) => {
                    &&& d.media_type@ == config_type@
                    &&& d.digest.algorithm@ == "sha256"@
                    &&& d.digest.encoded@ == hex_lower(sha256_of(blob@))
                    &&& d.size == blob@.len()
                    &&& d.annotations@ == annotations@
                    &&& final(self).manifest_spec().config.same_as(d)
                    &&& final(self).manifest_spec().layers == old(self).manifest_spec().layers
                    &&& final(self).manifest_spec().annotations == old(self).manifest_spec().annotations
                    &&& final(self).manifest_spec().artifact_type == old(self).manifest_spec().artifact_type
                },
                Err(_) => final(self).manifest_spec() == old(self).manifest_spec(),
            },
    {
        match self.layout.add_blob(blob) {
            Ok((digest, size)) => {
                let d = Descriptor { media_type: config_type, size, digest, annotations };
                assert(blob_matches(d, blob@));
                let out = d.duplicate();
                self.manifest.config = d;
                Ok(out)
            },
            Err(e) => Err(e),
        }
    }

    /// Appends `blob` as a layer of the artifact.
    pub fn add_layer(&mut self, layer_type: String, blob: &[u8], annotations: Vec<Annotation>) -> (r:
        Result<Descriptor, Error>)
        requires
            old(self).wf(),
        ensures
            final(self).wf(),
            match r {
                Ok(d) => {
                    &&& d.media_type@ == layer_type@
                    &&& d.digest.algorithm@ == "sha256"@
                    &&& d.digest.encoded@ == hex_lower(sha256_of(blob@))
                    &&& d.size == blob@.len()
                    &&& d.annotations@ == annotations@
                    &&& final(self).manifest_spec().layers@.len() == old(self).manifest_spec().layers@.len() + 1
                    &&& final(self).manifest_spec().layers@.drop_last() == old(self).manifest_spec().layers@
                    &&& final(self).manifest_spec().layers@.last().same_as(d)
                    &&& final(self).manifest_spec().config == old(self).manifest_spec().config
                    &&& final(self).manifest_spec().annotations == old(self).manifest_spec().annotations
                },
                Err(_) => final(self).manifest_spec() == old(self).manifest_spec(),
            },
    {
        match self.layout.add_blob(blob) {
            Ok((digest, size)) => {
                let d = Descriptor { media_type: layer_type, size, digest, annotations };
                assert(blob_matches(d, blob@));
                let out = d.duplicate();
                let ghost before = self.manifest.layers@;
                self.manifest.layers.push(d);
                assert forall|i: int| 0 <= i < self.manifest.layers@.len() implies describes_blob(
                    #[trigger] self.manifest.layers@[i],
                ) by {
                    if i < before.len() {
                        assert(self.manifest.layers@[i] == before[i]);
                    }
                }
                assert(self.manifest.layers@.drop_last() =~= old(self).manifest_spec().layers@);
                Ok(out)
            },
            Err(e) => Err(e),
        }
    }

    /// Sets an annotation of the manifest, replacing an earlier value of `key`.
    pub fn add_annotation(&mut self, key: String, value: String)
        requires
            old(self).wf(),
        ensures
            final(self).wf(),
            annotation_texts(final(self).manifest_spec().annotations@) == with_annotation(
                annotation_texts(old(self).manifest_spec().annotations@),
                key@,
                value@,
            ),
            final(self).manifest_spec().config == old(self).manifest_spec().config,
            final(self).manifest_spec().layers == old(self).manifest_spec().layers,
            final(self).manifest_spec().artifact_type == old(self).manifest_spec().artifact_type,
            final(self).manifest_spec().schema_version == old(self).manifest_spec().schema_version,
    {
        set_annotation(&mut self.manifest.annotations, key, value);
    }

    /// Sets `org.opencontainers.image.description`, a description of the image.
    pub fn add_description(&mut self, description: String)
        requires
            old(self).wf(),
        ensures
            final(self).wf(),
            annotation_texts(final(self).manifest_spec().annotations@) == with_annotation(
                annotation_texts(old(self).manifest_spec().annotations@),
                "org.opencontainers.image.description"@,
                description@,
            ),
            final(self).manifest_spec().config == old(self).manifest_spec().config,
            final(self).manifest_spec().layers == old(self).manifest_spec().layers,
            final(self).manifest_spec().artifact_type == old(self).manifest_spec().artifact_type,
            final(self).manifest_spec().schema_version == old(self).manifest_spec().schema_version,
    {
        self.add_annotation(String::from_str("org.opencontainers.image.description"), description)
    }

    /// Sets `org.opencontainers.image.source`, the URL of the source code.
    pub fn add_source(&mut self, source: String)
        requires
            old(self).wf(),
        ensures
            final(self).wf(),
            annotation_texts(final(self).manifest_spec().annotations@) == with_annotation(
                annotation_texts(old(self).manifest_spec().annotations@),
                "org.opencontainers.image.source"@,
                source@,
            ),
            final(self).manifest_spec().config == old(self).manifest_spec().config,
            final(self).manifest_spec().layers == old(self).manifest_spec().layers,
            final(self).manifest_spec().artifact_type == old(self).manifest_spec().artifact_type,
            final(self).manifest_spec().schema_version == old(self).manifest_spec().schema_version,
    {
        self.add_annotation(String::from_str("org.opencontainers.image.source"), source)
    }

    /// Sets `org.opencontainers.image.documentation`, the URL of the documentation.
    pub fn add_documentation(&mut self, documentation: String)
        requires
            old(self).wf(),
        ensures
            final(self).wf(),
            annotation_texts(final(self).manifest_spec().annotations@) == with_annotation(
                annotation_texts(old(self).manifest_spec().annotations@),
                "org.opencontainers.image.documentation"@,
                documentation@,
            ),
            final(self).manifest_spec().config == old(self).manifest_spec().config,
            final(self).manifest_spec().layers == old(self).manifest_spec().layers,
            final(self).manifest_spec().artifact_type == old(self).manifest_spec().artifact_type,
            final(self).manifest_spec().schema_version == old(self).manifest_spec().schema_version,
    {
        self.add_annotation(String::from_str("org.opencontainers.image.documentation"), documentation)
    }

    /// Sets `org.opencontainers.image.url`, the URL with more information on the image.
    pub fn add_url(&mut self, url: String)
        requires
            old(self).wf(),
        ensures
            final(self).wf(),
            annotation_texts(final(self).manifest_spec().annotations@) == with_annotation(
                annotation_texts(old(self).manifest_spec().annotations@),
                "org.opencontainers.image.url"@,
                url@,
            ),
            final(self).manifest_spec().config == old(self).manifest_spec().config,
            final(self).manifest_spec().layers == old(self).manifest_spec().layers,
            final(self).manifest_spec().artifact_type == old(self).manifest_spec().artifact_type,
            final(self).manifest_spec().schema_version == old(self).manifest_spec().schema_version,
    {
        self.add_annotation(String::from_str("org.opencontainers.image.url"), url)
    }

    /// Sets `org.opencontainers.image.created`, the RFC 3339 date and time of the build.
    pub fn add_created(&mut self, created: String)
        requires
            old(self).wf(),
        ensures
            final(self).wf(),
            annotation_texts(final(self).manifest_spec().annotations@) == with_annotation(
                annotation_texts(old(self).manifest_spec().annotations@),
                "org.opencontainers.image.created"@,
                created@,
            ),
            final(self).manifest_spec().config == old(self).manifest_spec().config,
            final(self).manifest_spec().layers == old(self).manifest_spec().layers,
            final(self).manifest_spec().artifact_type == old(self).manifest_spec().artifact_type,
            final(self).manifest_spec().schema_version == old(self).manifest_spec().schema_version,
    {
        self.add_annotation(String::from_str("org.opencontainers.image.created"), created)
    }

    /// Sets `org.opencontainers.image.revision`, the source control revision.
    pub fn add_revision(&mut self, revision: String)
        requires
            old(self).wf(),
        ensures
            final(self).wf(),
            annotation_texts(final(self).manifest_spec().annotations@) == with_annotation(
                annotation_texts(old(self).manifest_spec().annotations@),
                "org.opencontainers.image.revision"@,
                revision@,
            ),
            final(self).manifest_spec().config == old(self).manifest_spec().config,
            final(self).manifest_spec().layers == old(self).manifest_spec().layers,
            final(self).manifest_spec().artifact_type == old(self).manifest_spec().artifact_type,
            final(self).manifest_spec().schema_version == old(self).manifest_spec().schema_version,
    {
        self.add_annotation(String::from_str("org.opencontainers.image.revision"), revision)
    }

    /// Sets `org.opencontainers.image.vendor`, the distributing entity.
    pub fn add_vendor(&mut self, vendor: String)
        requires
            old(self).wf(),
        ensures
            final(self).wf(),
            annotation_texts(final(self).manifest_spec().annotations@) == with_annotation(
                annotation_texts(old(self).manifest_spec().annotations@),
                "org.opencontainers.image.vendor"@,
                vendor@,
            ),
            final(self).manifest_spec().config == old(self).manifest_spec().config,
            final(self).manifest_spec().layers == old(self).manifest_spec().layers,
            final(self).manifest_spec().artifact_type == old(self).manifest_spec().artifact_type,
            final(self).manifest_spec().schema_version == old(self).manifest_spec().schema_version,
    {
        self.add_annotation(String::from_str("org.opencontainers.image.vendor"), vendor)
    }

    /// Sets `org.opencontainers.image.title`, a human-readable title.
    pub fn add_title(&mut self, title: String)
        requires
            old(self).wf(),
        ensures
            final(self).wf(),
            annotation_texts(final(self).manifest_spec().annotations@) == with_annotation(
                annotation_texts(old(self).manifest_spec().annotations@),
                "org.opencontainers.image.title"@,
                title@,
            ),
            final(self).manifest_spec().config == old(self).manifest_spec().config,
            final(self).manifest_spec().layers == old(self).manifest_spec().layers,
            final(self).manifest_spec().artifact_type == old(self).manifest_spec().artifact_type,
            final(self).manifest_spec().schema_version == old(self).manifest_spec().schema_version,
    {
        self.add_annotation(String::from_str("org.opencontainers.image.title"), title)
    }

    /// Sets `org.opencontainers.image.licenses`, the SPDX license expression.
    pub fn add_licenses(&mut self, licenses: String)
        requires
            old(self).wf(),
        ensures
            final(self).wf(),
            annotation_texts(final(self).manifest_spec().annotations@) == with_annotation(
                annotation_texts(old(self).manifest_spec().annotations@),
                "org.opencontainers.image.licenses"@,
                licenses@,
            ),
            final(self).manifest_spec().config == old(self).manifest_spec().config,
            final(self).manifest_spec().layers == old(self).manifest_spec().layers,
            final(self).manifest_spec().artifact_type == old(self).manifest_spec().artifact_type,
            final(self).manifest_spec().schema_version == old(self).manifest_spec().schema_version,
    {
        self.add_annotation(String::from_str("org.opencontainers.image.licenses"), licenses)
    }

    /// Sets `org.opencontainers.image.authors`, the authors.
    pub fn add_authors(&mut self, authors: String)
        requires
            old(self).wf(),
        ensures
            final(self).wf(),
            annotation_texts(final(self).manifest_spec().annotations@) == with_annotation(
                annotation_texts(old(self).manifest_spec().annotations@),
                "org.opencontainers.image.authors"@,
                authors@,
            ),
            final(self).manifest_spec().config == old(self).manifest_spec().config,
            final(self).manifest_spec().layers == old(self).manifest_spec().layers,
            final(self).manifest_spec().artifact_type == old(self).manifest_spec().artifact_type,
            final(self).manifest_spec().schema_version == old(self).manifest_spec().schema_version,
    {
        self.add_annotation(String::from_str("org.opencontainers.image.authors"), authors)
    }

    /// Sets `org.opencontainers.image.version`, the version of the packaged software.
    pub fn add_versions(&mut self, version: String)
        requires
            old(self).wf(),
        ensures
            final(self).wf(),
            annotation_texts(final(self).manifest_spec().annotations@) == with_annotation(
                annotation_texts(old(self).manifest_spec().annotations@),
                "org.opencontainers.image.version"@,
                version@,
            ),
            final(self).manifest_spec().config == old(self).manifest_spec().config,
            final(self).manifest_spec().layers == old(self).manifest_spec().layers,
            final(self).manifest_spec().artifact_type == old(self).manifest_spec().artifact_type,
            final(self).manifest_spec().schema_version == old(self).manifest_spec().schema_version,
    {
        self.add_annotation(String::from_str("org.opencontainers.image.version"), version)
    }

    /// The assembled manifest and the layout builder, apart.
    pub fn into_parts(self) -> (r: (ImageManifest, L))
        ensures
            r.0 == self.manifest_spec(),
    {
        (self.manifest, self.layout)
    }

    /// Stores the assembled manifest and finishes the layout.
    pub fn build(self) -> (r: Result<OciArtifact<L::Image>, Error>)
        requires
            self.wf(),
    {
        let (manifest, layout) = self.into_parts();
        match layout.build(manifest) {
            Ok(image) => Ok(OciArtifact::new(image)),
            Err(e) => Err(e),
        }
    }
}

/// The `artifactType` of a manifest; a manifest without one is refused.
pub fn artifact_type_of(m: &ImageManifest) -> (r: Result<String, Error>)
    ensures
        match r {
            Ok(t) => m.artifact_type matches Some(a) && t@ == a@,
            Err(e) => m.artifact_type is None && e == Error::MissingArtifactType,
        },
{
    match &m.artifact_type {
        Some(t) => Ok(t.clone()),
        None => Err(Error::MissingArtifactType),
    }
}

/// The config of a manifest when it is the `{}` placeholder, which needs no
/// reading.
pub fn placeholder_config(m: &ImageManifest) -> (r: Option<(Descriptor, Vec<u8>)>)
    ensures
        match r {
            Some((d, b)) => m.config.media_type@ == empty_json_spec() && d.same_as(m.config)
                && b@ == seq![123u8, 125u8],
            None => m.config.media_type@ != empty_json_spec(),
        },
{
    let e = empty_json();
    if m.config.media_type == e {
        let b: Vec<u8> = vec![123u8, 125u8];
        assert(b@ =~= seq![123u8, 125u8]);
        Some((m.config.duplicate(), b))
    } else {
        None
    }
}

/// An OCI artifact read from any layout.
pub struct OciArtifact<Layout: Image> {
    layout: Layout,
}

impl<Layout: Image> OciArtifact<Layout> {
    pub fn new(layout: Layout) -> (r: Self) {
        OciArtifact { layout }
    }

    /// The layout underneath.
    pub fn layout(&mut self) -> (r: &mut Layout) {
        &mut self.layout
    }

    pub fn into_inner(self) -> (r: Layout) {
        self.layout
    }

    pub fn get_name(&mut self) -> (r: Result<ImageName, Error>) {
        self.layout.get_name()
    }

    pub fn get_manifest(&mut self) -> (r: Result<ImageManifest, Error>) {
        self.layout.get_manifest()
    }

    /// The `artifactType` of the manifest.
    pub fn artifact_type(&mut self) -> (r: Result<String, Error>) {
        match self.layout.get_manifest() {
            Ok(m) => artifact_type_of(&m),
            Err(e) => Err(e),
        }
    }

    /// The config descriptor and blob; the `{}` placeholder is not read.
    pub fn get_config(&mut self) -> (r: Result<(Descriptor, Vec<u8>), Error>)
        ensures
            r matches Ok((d, b)) ==> (d.media_type@ == empty_json_spec() ==> b@ == seq![123u8, 125u8]),
    {
        let m = match self.layout.get_manifest() {
            Ok(m) => m,
            Err(e) => {
                return Err(e);
            },
        };
        fetch_config(&mut self.layout, &m)
    }

    /// Every layer's descriptor with its blob, in manifest order.
    pub fn get_layers(&mut self) -> (r: Result<Vec<(Descriptor, Vec<u8>)>, Error>) {
        let m = match self.layout.get_manifest() {
            Ok(m) => m,
            Err(e) => {
                return Err(e);
            },
        };
        fetch_layers(&mut self.layout, &m)
    }
}

/// The config descriptor of `m` with its blob: the `{}` placeholder without
/// reading, any other config as `layout` gives it.
pub fn fetch_config<L: Image>(layout: &mut L, m: &ImageManifest) -> (r: Result<(Descriptor, Vec<u8>), Error>)
    ensures
        r matches Ok((d, b)) ==> d.same_as(m.config) && (m.config.media_type@ == empty_json_spec()
            ==> b@ == seq![123u8, 125u8]),
        m.config.media_type@ == empty_json_spec() ==> r is Ok,
{
    if let Some(c) = placeholder_config(m) {
        return Ok(c);
    }
    match layout.get_blob(&m.config.digest) {
        Ok(b) => Ok((m.config.duplicate(), b)),
        Err(e) => Err(e),
    }
}

/// The layers of `m`, each descriptor with the blob that `layout` gives for
/// it, in manifest order.
pub fn fetch_layers<L: Image>(layout: &mut L, m: &ImageManifest) -> (r: Result<Vec<(Descriptor, Vec<u8>)>, Error>)
    ensures
        r matches Ok(v) ==> v@.len() == m.layers@.len() && forall|i: int|
            0 <= i < v@.len() ==> (#[trigger] v@[i]).0.same_as(m.layers@[i]),
{
    let mut out: Vec<(Descriptor, Vec<u8>)> = Vec::new();
    let mut i: usize = 0;
    while i < m.layers.len()
        invariant
            i <= m.layers@.len(),
            out@.len() == i,
            forall|j: int| 0 <= j < i ==> (#[trigger] out@[j]).0.same_as(m.layers@[j]),
        decreases m.layers@.len() - i,
    {
        let d = &m.layers[i];
        match layout.get_blob(&d.digest) {
            Ok(b) => out.push((d.duplicate(), b)),
            Err(e) => {
                return Err(e);
            },
        }
        i = i + 1;
    }
    Ok(out)
}

} // verus!
