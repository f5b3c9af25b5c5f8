//! ocipkg artifacts, `application/vnd.ocipkg.v1.artifact`: gzipped tar
//! layers and a config that lists the files of each layer.

use vstd::prelude::*;

use crate::digest::{hex_lower, sha256_of};
use crate::error::Error;
use crate::image::config::{path_texts, Config};
use crate::image::layout::{describes_blobs, ImageBuilder};
use crate::image::manifest::ImageManifest;
use crate::image::oci_artifact::{OciArtifact, OciArtifactBuilder};
use crate::media_types::{artifact, artifact_spec, config_json, config_json_spec, layer_tar_gzip, layer_tar_gzip_spec, image_layer_spec};

verus! {

/// Which kind of ocipkg artifact a manifest describes.
#[derive(Debug, Clone, Copy, PartialEq, Eq, PartialOrd, Ord, Hash)]
pub enum ArtifactVersion {
    /// A manifest of another artifact type, from before the ocipkg artifact type
    V0,
    /// `application/vnd.ocipkg.v1.artifact`
    V1,
}

/// The ocipkg version of a manifest; a manifest without `artifactType` is refused.
pub fn artifact_version(m: &ImageManifest) -> (r: Result<ArtifactVersion, Error>)
    ensures
        match m.artifact_type {
            None => r == Err::<ArtifactVersion, Error>(Error::MissingArtifactType),
            Some(t) => r == Ok::<ArtifactVersion, Error>(
                if t@ == artifact_spec() {
                    ArtifactVersion::V1
                } else {
                    ArtifactVersion::V0
                },
            ),
        },
{
    match &m.artifact_type {
        None => Err(Error::MissingArtifactType),
        Some(t) => {
            let a = artifact();
            if *t == a {
                Ok(ArtifactVersion::V1)
            } else {
                Ok(ArtifactVersion::V0)
            }
        },
    }
}

/// How a layer is unpacked.
#[derive(Debug, Clone, Copy, PartialEq, Eq)]
pub enum LayerFormat {
    /// A plain tar
    Tar,
    /// A gzipped tar
    TarGzip,
}

pub open spec fn image_layer_gzip_spec() -> Seq<char> {
    "application/vnd.oci.image.layer.v1.tar+gzip"@
}

/// How a layer of this media type is unpacked from an artifact of this
/// version: ocipkg layers are gzipped tars; the older kind holds image
/// layers, plain or gzipped.
pub fn layer_format(version: ArtifactVersion, media_type: &str) -> (r: Result<LayerFormat, Error>)
    ensures
        match version {
            ArtifactVersion::V1 => if media_type@ == layer_tar_gzip_spec() {
                r == Ok::<LayerFormat, Error>(LayerFormat::TarGzip)
            } else {
                r is Err
            },
            ArtifactVersion::V0 => if media_type@ == image_layer_spec() {
                r == Ok::<LayerFormat, Error>(LayerFormat::Tar)
            } else if media_type@ == image_layer_gzip_spec() {
                r == Ok::<LayerFormat, Error>(LayerFormat::TarGzip)
            } else {
                r is Err
            },
        },
{
    let m = media_type.to_owned();
    match version {
        ArtifactVersion::V1 => {
            if m == layer_tar_gzip() {
                Ok(LayerFormat::TarGzip)
            } else {
                Err(Error::UnsupportedLayer(m))
            }
        },
        ArtifactVersion::V0 => {
            if m == crate::media_types::image_layer() {
                Ok(LayerFormat::Tar)
            } else if m == String::from_str("application/vnd.oci.image.layer.v1.tar+gzip") {
                Ok(LayerFormat::TarGzip)
            } else {
                Err(Error::UnsupportedLayer(m))
            }
        },
    }
}

/// Whether unpacking into `dest` must first remove what is there: an
/// existing destination is replaced only when overwriting was asked for.
pub fn prepare_destination(dest: &str, exists: bool, overwrite: bool) -> (r: Result<bool, Error>)
    ensures
        match r {
            Ok(remove) => remove == exists && (exists ==> overwrite),
            Err(e) => exists && !overwrite && (e matches Error::ImageAlreadyExists(p) && p@ == dest@),
        },
{
    if exists {
        if overwrite {
            Ok(true)
        } else {
            Err(Error::ImageAlreadyExists(dest.to_owned()))
        }
    } else {
        Ok(false)
    }
}

/// Builds an ocipkg artifact: each layer is a gzipped tar whose files are
/// recorded in the config.
pub struct Builder<L: ImageBuilder> {
    config: Config,
    builder: OciArtifactBuilder<L>,
}

impl<L: ImageBuilder> Builder<L> {
    pub closed spec fn config_spec(&self) -> Config {
        self.config
    }

    /// The manifest as assembled so far.
    pub closed spec fn manifest_spec(&self) -> ImageManifest {
        self.builder.manifest_spec()
    }

    /// Every descriptor of the manifest has the digest and size of a blob
    /// that went to the layout.
    pub open spec fn wf(&self) -> bool {
        describes_blobs(self.manifest_spec())
    }

    /// Starts an ocipkg artifact on a layout builder.
    pub fn new(layout: L) -> (r: Result<Self, Error>)
        ensures
            r matches Ok(b) ==> b.config_spec()@.len() == 0 && b.wf(),
    {
        match OciArtifactBuilder::new(layout, artifact()) {
            Ok(builder) => Ok(Builder { config: Config::new(), builder }),
            Err(e) => Err(e),
        }
    }

    /// The files recorded so far.
    pub fn config(&self) -> (r: &Config)
        ensures
            *r == self.config_spec(),
    {
        &self.config
    }

    /// Adds a gzipped tar as a layer and records the files it holds.
    pub fn append_layer(&mut self, tar_gz: &[u8], paths: Vec<String>) -> (r: Result<(), Error>)
        requires
            old(self).wf(),
        ensures
            final(self).wf(),
            r is Ok ==> {
                let key = seq!['s', 'h', 'a', '2', '5', '6', ':'] + hex_lower(sha256_of(tar_gz@));
                final(self).config_spec()@ == (if crate::image::config::layer_index(old(self).config_spec()@, key) >= 0 {
                    old(self).config_spec()@.update(
                        crate::image::config::layer_index(old(self).config_spec()@, key),
                        (key, path_texts(paths@)),
                    )
                } else {
                    old(self).config_spec()@.push((key, path_texts(paths@)))
                })
            },
    {
        let d = match self.builder.add_layer(layer_tar_gzip(), tar_gz, Vec::new()) {
            Ok(d) => d,
            Err(e) => {
                return Err(e);
            },
        };
        proof {
            reveal_strlit("sha256");
            assert(d.digest.text() =~= seq!['s', 'h', 'a', '2', '5', '6', ':'] + hex_lower(sha256_of(tar_gz@)));
        }
        self.config.add_layer(d.digest, paths);
        Ok(())
    }

    /// Stores the config, given as its JSON text, under the ocipkg config
    /// media type; gives back the final manifest and the layout builder.
    pub fn finish(self, config_json_text: &[u8]) -> (r: Result<(ImageManifest, L), Error>)
        requires
            self.wf(),
        ensures
            r matches Ok((m, _)) ==> describes_blobs(m),
            r matches Ok((m, _)) ==> {
                &&& m.config.media_type@ == config_json_spec()
                &&& m.config.digest.algorithm@ == "sha256"@
                &&& m.config.digest.encoded@ == hex_lower(sha256_of(config_json_text@))
                &&& m.config.size == config_json_text@.len()
                &&& m.config.annotations@.len() == 0
                &&& m.layers == self.manifest_spec().layers
                &&& m.annotations == self.manifest_spec().annotations
                &&& m.artifact_type == self.manifest_spec().artifact_type
            },
    {
        let mut builder = self.builder;
        match builder.add_config(config_json(), config_json_text, Vec::new()) {
            Ok(_) => Ok(builder.into_parts()),
            Err(e) => Err(e),
        }
    }

    /// Stores the config, given as its JSON text, and hands the final
    /// manifest (see [`Builder::finish`]) to the layout.
    pub fn build(self, config_json_text: &[u8]) -> (r: Result<OciArtifact<L::Image>, Error>)
        requires
            self.wf(),
    {
        let (manifest, layout) = match self.finish(config_json_text) {
            Ok(x) => x,
            Err(e) => {
                return Err(e);
            },
        };
        match layout.build(manifest) {
            Ok(image) => Ok(OciArtifact::new(image)),
            Err(e) => Err(e),
        }
    }
}

} // verus!
