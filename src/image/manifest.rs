//! Descriptors, manifests and indices of an image layout.

use vstd::prelude::*;

use crate::digest::Digest;
use crate::error::Error;
use crate::image_name::{decode_image_name, image_name_error, ImageName};

verus! {

/// `org.opencontainers.image.ref.name`, the annotation that names an image.
pub open spec fn ref_name_key() -> Seq<char> {
    "org.opencontainers.image.ref.name"@
}

/// One `key: value` annotation.
#[derive(Debug, Clone, PartialEq, Eq)]
pub struct Annotation {
    pub key: String,
    pub value: String,
}

/// The value of the first annotation with key `k`.
pub open spec fn annotation_value(a: Seq<Annotation>, k: Seq<char>) -> Option<Seq<char>>
    decreases a.len(),
{
    if a.len() == 0 {
        None
    } else if a[0].key@ == k {
        Some(a[0].value@)
    } else {
        annotation_value(a.drop_first(), k)
    }
}

impl Annotation {
    pub fn duplicate(&self) -> (r: Annotation)
        ensures
            r == *self,
    {
        Annotation { key: self.key.clone(), value: self.value.clone() }
    }
}

/// A copy of a list of annotations.
pub fn duplicate_annotations(a: &Vec<Annotation>) -> (r: Vec<Annotation>)
    ensures
        r@ == a@,
{
    let mut r: Vec<Annotation> = Vec::new();
    let mut i: usize = 0;
    while i < a.len()
        invariant
            i <= a@.len(),
            r@ == a@.subrange(0, i as int),
        decreases a@.len() - i,
    {
        r.push(a[i].duplicate());
        assert(a@.subrange(0, i + 1) =~= a@.subrange(0, i as int).push(a@[i as int]));
        i = i + 1;
    }
    assert(a@.subrange(0, a@.len() as int) =~= a@);
    r
}

/// Points to one blob: its media type, size and digest.
#[derive(Debug, Clone, PartialEq, Eq)]
pub struct Descriptor {
    pub media_type: String,
    pub size: u64,
    pub digest: Digest,
    pub annotations: Vec<Annotation>,
}

impl Descriptor {
    /// Same media type, size, digest and annotations.
    pub open spec fn same_as(&self, o: Descriptor) -> bool {
        self.media_type@ == o.media_type@ && self.size == o.size && self.digest == o.digest
            && self.annotations@ == o.annotations@
    }

    pub fn duplicate(&self) -> (r: Descriptor)
        ensures
            r.same_as(*self),
    {
        Descriptor {
            media_type: self.media_type.clone(),
            size: self.size,
            digest: self.digest.duplicate(),
            annotations: duplicate_annotations(&self.annotations),
        }
    }
}

/// An image manifest: a config descriptor and layer descriptors.
#[derive(Debug, Clone, PartialEq, Eq)]
pub struct ImageManifest {
    pub schema_version: u32,
    pub artifact_type: Option<String>,
    pub config: Descriptor,
    pub layers: Vec<Descriptor>,
    pub annotations: Vec<Annotation>,
}

/// The text of an optional string.
pub open spec fn opt_text(o: Option<String>) -> Option<Seq<char>> {
    match o {
        Some(t) => Some(t@),
        None => None,
    }
}

impl ImageManifest {
    /// Same schema version, artifact type, annotations and descriptors, in
    /// the same order.
    pub open spec fn same_as(&self, o: ImageManifest) -> bool {
        &&& self.schema_version == o.schema_version
        &&& opt_text(self.artifact_type) == opt_text(o.artifact_type)
        &&& self.config.same_as(o.config)
        &&& self.layers@.len() == o.layers@.len()
        &&& forall|i: int| 0 <= i < self.layers@.len() ==> (#[trigger] self.layers@[i]).same_as(o.layers@[i])
        &&& self.annotations@ == o.annotations@
    }

    pub fn duplicate(&self) -> (r: ImageManifest)
        ensures
            r.same_as(*self),
    {
        let mut layers: Vec<Descriptor> = Vec::new();
        let mut i: usize = 0;
        while i < self.layers.len()
            invariant
                i <= self.layers@.len(),
                layers@.len() == i,
                forall|j: int| 0 <= j < i ==> (#[trigger] layers@[j]).same_as(self.layers@[j]),
            decreases self.layers@.len() - i,
        {
            layers.push(self.layers[i].duplicate());
            i = i + 1;
        }
        let artifact_type = match &self.artifact_type {
            Some(t) => Some(t.clone()),
            None => None,
        };
        ImageManifest {
            schema_version: self.schema_version,
            artifact_type,
            config: self.config.duplicate(),
            layers,
            annotations: duplicate_annotations(&self.annotations),
        }
    }
}

/// `index.json`: the manifests of a layout.
#[derive(Debug, Clone, PartialEq, Eq)]
pub struct ImageIndex {
    pub schema_version: u32,
    pub manifests: Vec<Descriptor>,
}

/// Looks up the first annotation with key `key`.
pub fn find_annotation(a: &Vec<Annotation>, key: &str) -> (r: Option<String>)
    ensures
        match r {
            Some(v) => annotation_value(a@, key@) == Some(v@),
            None => annotation_value(a@, key@) is None,
        },
{
    let k = key.to_owned();
    let mut i: usize = 0;
    assert(a@.subrange(0, a@.len() as int) =~= a@);
    while i < a.len()
        invariant
            k@ == key@,
            i <= a@.len(),
            annotation_value(a@, key@) == annotation_value(a@.subrange(i as int, a@.len() as int), key@),
        decreases a@.len() - i,
    {
        let ghost rest = a@.subrange(i as int, a@.len() as int);
        assert(rest[0] == a@[i as int]);
        if a[i].key == k {
            return Some(a[i].value.clone());
        }
        assert(rest.drop_first() =~= a@.subrange(i + 1, a@.len() as int));
        i = i + 1;
    }
    None
}

impl ImageIndex {
    /// The index of a layout with one manifest, stored under `digest` with
    /// `size` bytes; a named image carries its name in the `ref.name`
    /// annotation.
    pub fn for_manifest(digest: Digest, size: u64, name: Option<&ImageName>) -> (r: ImageIndex)
        ensures
            r.schema_version == 2,
            r.manifests@.len() == 1,
            r.manifests@[0].media_type@ == crate::media_types::image_manifest_spec(),
            r.manifests@[0].digest == digest,
            r.manifests@[0].size == size,
            match name {
                Some(n) => annotation_value(r.manifests@[0].annotations@, ref_name_key()) == Some(
                    n.text(),
                ) && r.manifests@[0].annotations@.len() == 1,
                None => r.manifests@[0].annotations@.len() == 0,
            },
    {
        let mut annotations: Vec<Annotation> = Vec::new();
        if let Some(n) = name {
            annotations.push(
                Annotation {
                    key: String::from_str("org.opencontainers.image.ref.name"),
                    value: n.to_string(),
                },
            );
            assert(annotations@.drop_first() =~= Seq::<Annotation>::empty());
        }
        let d = Descriptor {
            media_type: crate::media_types::image_manifest(),
            size,
            digest,
            annotations,
        };
        let mut manifests: Vec<Descriptor> = Vec::new();
        manifests.push(d);
        ImageIndex { schema_version: 2, manifests }
    }

    /// The one manifest descriptor of the index; an index with none or with
    /// several is refused.
    pub fn single_manifest(&self) -> (r: Result<&Descriptor, Error>)
        ensures
            match r {
                Ok(d) => self.manifests@.len() == 1 && *d == self.manifests@[0],
                Err(e) => self.manifests@.len() != 1 && (if self.manifests@.len() == 0 {
                    e == Error::MissingManifest
                } else {
                    e == Error::MultipleManifests(self.manifests@.len() as usize)
                }),
            },
    {
        let n = self.manifests.len();
        if n == 0 {
            Err(Error::MissingManifest)
        } else if n > 1 {
            Err(Error::MultipleManifests(n))
        } else {
            Ok(&self.manifests[0])
        }
    }

    /// The digest of the manifest blob, for reading the manifest.
    pub fn manifest_digest(&self) -> (r: Result<Digest, Error>)
        ensures
            match r {
                Ok(d) => self.manifests@.len() == 1 && d == self.manifests@[0].digest,
                Err(_) => self.manifests@.len() != 1,
            },
    {
        match self.single_manifest() {
            Ok(d) => Ok(d.digest.duplicate()),
            Err(e) => Err(e),
        }
    }
}

/// The name of the image that an index describes.
pub fn get_name_from_index(index: &ImageIndex) -> (r: Result<ImageName, Error>)
    ensures
        index.manifests@.len() != 1 ==> r is Err,
        index.manifests@.len() == 1 ==> match annotation_value(index.manifests@[0].annotations@, ref_name_key()) {
            None => r == Err::<ImageName, Error>(Error::MissingManifestName),
            Some(t) => match r {
                Ok(n) => decode_image_name(t) == Some(n.fields()) && n.wf(),
                Err(e) => decode_image_name(t) is None && image_name_error(t, e),
            },
        },
{
    let d = match index.single_manifest() {
        Ok(d) => d,
        Err(e) => {
            return Err(e);
        },
    };
    match find_annotation(&d.annotations, "org.opencontainers.image.ref.name") {
        None => Err(Error::MissingManifestName),
        Some(t) => ImageName::parse(t.as_str()),
    }
}

} // verus!
