//! The reader and builder contracts of an image layout, and copying between them.

use vstd::prelude::*;

use crate::digest::{hex_lower, sha256_of, Digest};
use crate::error::Error;
use crate::image::manifest::{Descriptor, ImageManifest};
use crate::image_name::ImageName;

verus! {

/// An image layout holding one manifest, read blob by blob.
pub trait Image {
    /// The name of the image.
    fn get_name(&mut self) -> Result<ImageName, Error>;

    /// The content of the blob with this digest.
    fn get_blob(&mut self, digest: &Digest) -> Result<Vec<u8>, Error>;

    /// The manifest of the image.
    fn get_manifest(&mut self) -> Result<ImageManifest, Error>;
}

/// `b` is the blob that `d` describes: its SHA-256 digest and its size.
pub open spec fn blob_matches(d: Descriptor, b: Seq<u8>) -> bool {
    d.digest.algorithm@ == "sha256"@ && d.digest.encoded@ == hex_lower(sha256_of(b)) && d.size
        == b.len()
}

/// Some blob has this descriptor's digest and size.
pub open spec fn describes_blob(d: Descriptor) -> bool {
    exists|b: Seq<u8>| #[trigger] blob_matches(d, b)
}

/// Every descriptor of the manifest, its layers and its config, has the
/// digest and size of a blob.
pub open spec fn describes_blobs(m: ImageManifest) -> bool {
    &&& describes_blob(m.config)
    &&& forall|i: int| 0 <= i < m.layers@.len() ==> describes_blob(#[trigger] m.layers@[i])
}

/// Writes an image layout: blobs first, then the manifest.
pub trait ImageBuilder {
    type Image: Image;

    /// Stores a blob under its SHA-256 digest and returns the digest and size.
    fn add_blob(&mut self, data: &[u8]) -> (r: Result<(Digest, u64), Error>)
        ensures
            r matches Ok((d, s)) ==> d.algorithm@ == "sha256"@ && d.encoded@ == hex_lower(
                sha256_of(data@),
            ) && s == data@.len(),
    ;

    /// Stores the manifest and finishes the layout; every blob that the
    /// manifest refers to must have been added before, so each descriptor
    /// carries the digest and size of a blob.
    fn build(self, manifest: ImageManifest) -> Result<Self::Image, Error>
        requires
            describes_blobs(manifest),
    ;
}

/// A copied blob matches its descriptor: the same digest and the same size.
pub open spec fn copy_matches(expected: Descriptor, digest: Digest, size: u64) -> bool {
    digest.algorithm@ == expected.digest.algorithm@ && digest.encoded@ == expected.digest.encoded@
        && size == expected.size
}

/// Checks what the target reported for a copied blob against its descriptor.
pub fn check_copied(expected: &Descriptor, digest: &Digest, size: u64) -> (r: Result<(), Error>)
    ensures
        r is Ok <==> copy_matches(*expected, *digest, size),
        r matches Err(e) ==> (if digest.algorithm@ == expected.digest.algorithm@
            && digest.encoded@ == expected.digest.encoded@ {
            e == Error::SizeMismatch(expected.size, size)
        } else {
            e is DigestMismatch
        }),
{
    if !digest.same(&expected.digest) {
        return Err(Error::DigestMismatch(expected.digest.to_string(), digest.to_string()));
    }
    if size != expected.size {
        return Err(Error::SizeMismatch(expected.size, size));
    }
    Ok(())
}

/// Hands `blob` to `to` and checks what it reports against `expected`: it
/// succeeds only when the blob has the descriptor's digest and size, and
/// fails whenever it has not.
pub fn copy_blob<T: ImageBuilder>(to: &mut T, expected: &Descriptor, blob: &[u8]) -> (r: Result<(), Error>)
    ensures
        r is Ok ==> blob_matches(*expected, blob@),
        !blob_matches(*expected, blob@) ==> r is Err,
{
    let (d, s) = match to.add_blob(blob) {
        Ok(x) => x,
        Err(e) => {
            return Err(e);
        },
    };
    let r = check_copied(expected, &d, s);
    proof {
        reveal_strlit("sha256");
    }
    r
}

/// Fetches the blob of `expected` from `from` and copies it to `to`.
fn fetch_and_copy<F: Image, T: ImageBuilder>(from: &mut F, to: &mut T, expected: &Descriptor) -> (r: Result<(), Error>)
    ensures
        r is Ok ==> describes_blob(*expected),
{
    let blob = match from.get_blob(&expected.digest) {
        Ok(b) => b,
        Err(e) => {
            return Err(e);
        },
    };
    let r = copy_blob(to, expected, blob.as_slice());
    proof {
        if r is Ok {
            assert(blob_matches(*expected, blob@));
        }
    }
    r
}

/// Copies the blobs of `m` from `from` to `to`, the layers in order and then
/// the config, each checked against its descriptor; gives back `m` itself
/// once all of them were copied.
pub fn copy_blobs<F: Image, T: ImageBuilder>(from: &mut F, to: &mut T, m: ImageManifest) -> (r: Result<ImageManifest, Error>)
    ensures
        r matches Ok(m2) ==> m2 == m && describes_blobs(m),
{
    let mut i: usize = 0;
    while i < m.layers.len()
        invariant
            i <= m.layers@.len(),
            forall|j: int| 0 <= j < i ==> describes_blob(#[trigger] m.layers@[j]),
        decreases m.layers@.len() - i,
    {
        match fetch_and_copy(from, to, &m.layers[i]) {
            Ok(()) => {},
            Err(e) => {
                return Err(e);
            },
        }
        i = i + 1;
    }
    match fetch_and_copy(from, to, &m.config) {
        Ok(()) => {},
        Err(e) => {
            return Err(e);
        },
    }
    Ok(m)
}

/// Copies an image: every layer and the config, each checked against its
/// descriptor, then the manifest that was read, unchanged, goes to `build`.
/// Gives back the built image with a copy of that manifest: every descriptor
/// of it carries the digest and size of a blob handed to the target. A blob
/// whose digest or size differs from its descriptor ends the copy with an
/// error before `build` (see [`copy_blob`]).
pub fn copy<F: Image, T: ImageBuilder>(from: &mut F, to: T) -> (r: Result<(T::Image, ImageManifest), Error>)
    ensures
        r matches Ok((_, m)) ==> describes_blobs(m),
{
    let mut to = to;
    let _name = match from.get_name() {
        Ok(n) => n,
        Err(e) => {
            return Err(e);
        },
    };
    let read = match from.get_manifest() {
        Ok(m) => m,
        Err(e) => {
            return Err(e);
        },
    };
    let ghost read_view = read;
    let checked = match copy_blobs(from, &mut to, read) {
        Ok(m) => m,
        Err(e) => {
            return Err(e);
        },
    };
    assert(checked == read_view);
    let handed = checked.duplicate();
    assert(describes_blobs(handed)) by {
        assert forall|i: int| 0 <= i < handed.layers@.len() implies describes_blob(#[trigger] handed.layers@[i]) by {
            assert(handed.layers@[i].same_as(checked.layers@[i]));
            let b = choose|b: Seq<u8>| #[trigger] blob_matches(checked.layers@[i], b);
            assert(blob_matches(handed.layers@[i], b));
        }
        let b = choose|b: Seq<u8>| #[trigger] blob_matches(checked.config, b);
        assert(blob_matches(handed.config, b));
    }
    match to.build(checked) {
        Ok(image) => Ok((image, handed)),
        Err(e) => Err(e),
    }
}

} // verus!
