//! Image layouts: their records, the reader and builder contracts, and copying.

pub mod artifact;
pub mod config;
pub mod layout;
pub mod manifest;
pub mod oci_artifact;
pub mod runnable;

pub use artifact::{artifact_version, ArtifactVersion, Builder};
pub use config::{Config, LayerFiles};
pub use layout::{copy, Image, ImageBuilder};
pub use manifest::{Annotation, Descriptor, ImageIndex, ImageManifest};
pub use oci_artifact::{OciArtifact, OciArtifactBuilder};
