//! Media types that this library writes and recognises.

use vstd::prelude::*;

verus! {

pub open spec fn artifact_spec() -> Seq<char> {
    "application/vnd.ocipkg.v1.artifact"@
}

pub open spec fn config_json_spec() -> Seq<char> {
    "application/vnd.ocipkg.v1.config+json"@
}

pub open spec fn layer_tar_gzip_spec() -> Seq<char> {
    "application/vnd.ocipkg.v1.layer.tar+gzip"@
}

pub open spec fn empty_json_spec() -> Seq<char> {
    "application/vnd.oci.empty.v1+json"@
}

pub open spec fn image_manifest_spec() -> Seq<char> {
    "application/vnd.oci.image.manifest.v1+json"@
}

pub open spec fn image_layer_spec() -> Seq<char> {
    "application/vnd.oci.image.layer.v1.tar"@
}

pub open spec fn image_config_spec() -> Seq<char> {
    "application/vnd.oci.image.config.v1+json"@
}

/// `artifactType` of an ocipkg artifact.
pub fn artifact() -> (r: String)
    ensures
        r@ == artifact_spec(),
{
    String::from_str("application/vnd.ocipkg.v1.artifact")
}

/// Media type of the ocipkg config blob, which maps layers to their files.
pub fn config_json() -> (r: String)
    ensures
        r@ == config_json_spec(),
{
    String::from_str("application/vnd.ocipkg.v1.config+json")
}

/// Media type of an ocipkg layer, a gzipped tar.
pub fn layer_tar_gzip() -> (r: String)
    ensures
        r@ == layer_tar_gzip_spec(),
{
    String::from_str("application/vnd.ocipkg.v1.layer.tar+gzip")
}

/// Media type of the `{}` placeholder blob.
pub fn empty_json() -> (r: String)
    ensures
        r@ == empty_json_spec(),
{
    String::from_str("application/vnd.oci.empty.v1+json")
}

/// Media type of an image manifest.
pub fn image_manifest() -> (r: String)
    ensures
        r@ == image_manifest_spec(),
{
    String::from_str("application/vnd.oci.image.manifest.v1+json")
}

/// Media type of an uncompressed tar layer.
pub fn image_layer() -> (r: String)
    ensures
        r@ == image_layer_spec(),
{
    String::from_str("application/vnd.oci.image.layer.v1.tar")
}

/// Media type of a runnable image's configuration.
pub fn image_config() -> (r: String)
    ensures
        r@ == image_config_spec(),
{
    String::from_str("application/vnd.oci.image.config.v1+json")
}

/// Whether `media_type` names an image index, in the OCI or the Docker form.
pub fn is_imageindex(media_type: &str) -> (r: bool)
    ensures
        r == (media_type@ == "application/vnd.docker.distribution.manifest.list.v2+json"@
            || media_type@ == "application/vnd.oci.image.index.v1+json"@),
{
    let m = media_type.to_owned();
    let docker = String::from_str("application/vnd.docker.distribution.manifest.list.v2+json");
    let oci = String::from_str("application/vnd.oci.image.index.v1+json");
    m == docker || m == oci
}

} // verus!
