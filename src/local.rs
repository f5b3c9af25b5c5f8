//! The local store: one directory per image name under a data directory.

use vstd::prelude::*;

use crate::error::Error;
use crate::image_name::{decode_image_path, image_path_error, ImageName};
use crate::text::{chars_of, split_last, split_last_exec};

verus! {

/// The path of `path` below `data_dir`, if it lies there.
pub open spec fn store_relative(data_dir: Seq<char>, path: Seq<char>) -> Option<Seq<char>> {
    let pre = data_dir + seq!['/'];
    if path.len() >= pre.len() && path.subrange(0, pre.len() as int) == pre {
        Some(path.subrange(pre.len() as int, path.len() as int))
    } else {
        None
    }
}

/// The last component of a path.
pub open spec fn base_name(p: Seq<char>) -> Seq<char> {
    match split_last(p, '/') {
        Some((_, b)) => b,
        None => p,
    }
}

/// A directory of the store that holds one image: its name starts with `__`.
pub open spec fn is_image_leaf(p: Seq<char>) -> bool {
    base_name(p).len() >= 2 && base_name(p)[0] == '_' && base_name(p)[1] == '_'
}

/// The image directories among `ds`, in order.
pub open spec fn image_leaves(ds: Seq<Seq<char>>) -> Seq<Seq<char>>
    decreases ds.len(),
{
    if ds.len() == 0 {
        Seq::empty()
    } else if is_image_leaf(ds.last()) {
        image_leaves(ds.drop_last()).push(ds.last())
    } else {
        image_leaves(ds.drop_last())
    }
}

/// The image name that a directory of the store stands for.
pub open spec fn leaf_image(data_dir: Seq<char>, p: Seq<char>) -> Option<
    (Seq<char>, Option<u16>, Seq<char>, Seq<char>),
> {
    match store_relative(data_dir, p) {
        Some(rel) => decode_image_path(rel),
        None => None,
    }
}

/// `<data_dir>/<name as a path>`, where the image `name` is stored.
pub fn image_dir(data_dir: &str, name: &ImageName) -> (r: String)
    ensures
        r@ == data_dir@ + seq!['/'] + name.path(),
{
    let mut r = data_dir.to_owned();
    crate::text::push_char(&mut r, '/');
    let p = name.as_path();
    r.append(p.as_str());
    r
}

/// The image name of a directory below `data_dir`.
pub fn path_to_image_name(data_dir: &str, path: &str) -> (r: Result<ImageName, Error>)
    ensures
        match store_relative(data_dir@, path@) {
            None => r matches Err(e) && e.is_invalid_name(path@),
            Some(rel) => match r {
                Ok(n) => decode_image_path(rel) == Some(n.fields()),
                Err(e) => decode_image_path(rel) is None && image_path_error(rel, e),
            },
        },
{
    let mut pre = chars_of(data_dir);
    pre.push('/');
    assert(pre@ =~= data_dir@ + seq!['/']);
    let cs = chars_of(path);
    if !crate::text::has_prefix(cs.as_slice(), pre.as_slice()) {
        return Err(Error::InvalidName(path.to_owned()));
    }
    let rest = crate::text::sub_chars(cs.as_slice(), pre.len(), cs.len());
    let rel = crate::text::string_of(rest.as_slice());
    assert(store_relative(data_dir@, path@) == Some(rel@));
    ImageName::from_path(rel.as_str())
}

/// Whether a directory of the store holds one image.
pub fn is_image_dir(path: &str) -> (r: bool)
    ensures
        r == is_image_leaf(path@),
{
    let cs = chars_of(path);
    let base = match split_last_exec(cs.as_slice(), '/') {
        Some((_, b)) => b,
        None => cs,
    };
    base.len() >= 2 && base[0] == '_' && base[1] == '_'
}

/// The texts of a list of paths.
pub open spec fn texts(ds: Seq<String>) -> Seq<Seq<char>> {
    ds.map_values(|d: String| d@)
}

/// The image names stored below `data_dir`, given the directories found there.
pub fn get_image_list(data_dir: &str, dirs: &Vec<String>) -> (r: Result<Vec<ImageName>, Error>)
    ensures
        match r {
            Ok(v) => v@.len() == image_leaves(texts(dirs@)).len() && forall|i: int|
                0 <= i < v@.len() ==> leaf_image(data_dir@, image_leaves(texts(dirs@))[i]) == Some(
                    #[trigger] v@[i].fields(),
                ),
            Err(_) => exists|i: int|
                0 <= i < image_leaves(texts(dirs@)).len() && #[trigger] leaf_image(
                    data_dir@,
                    image_leaves(texts(dirs@))[i],
                ) is None,
        },
{
    let ghost ds = texts(dirs@);
    let mut out: Vec<ImageName> = Vec::new();
    let mut i: usize = 0;
    assert(ds.subrange(0, 0) =~= Seq::<Seq<char>>::empty());
    while i < dirs.len()
        invariant
            ds == texts(dirs@),
            i <= dirs@.len(),
            out@.len() == image_leaves(ds.subrange(0, i as int)).len(),
            forall|j: int|
                0 <= j < out@.len() ==> leaf_image(data_dir@, image_leaves(ds.subrange(0, i as int))[j])
                    == Some(#[trigger] out@[j].fields()),
        decreases dirs@.len() - i,
    {
        let ghost pre = ds.subrange(0, i as int);
        let ghost next = ds.subrange(0, i + 1);
        assert(next.drop_last() =~= pre);
        assert(next.last() == dirs@[i as int]@);
        let d = &dirs[i];
        if is_image_dir(d.as_str()) {
            match path_to_image_name(data_dir, d.as_str()) {
                Ok(n) => {
                    out.push(n);
                    assert(image_leaves(next) == image_leaves(pre).push(dirs@[i as int]@));
                },
                Err(e) => {
                    proof {
                        let k = image_leaves(pre).len() as int;
                        assert(image_leaves(next)[k] == dirs@[i as int]@);
                        lemma_image_leaves_prefix(ds, i as int + 1);
                        assert(image_leaves(next).len() == k + 1);
                        assert(image_leaves(ds)[k] == image_leaves(next)[k]);
                        assert(leaf_image(data_dir@, image_leaves(ds)[k]) is None);
                        assert(0 <= k < image_leaves(texts(dirs@)).len());
                    }
                    return Err(e);
                },
            }
        }
        i = i + 1;
    }
    assert(ds.subrange(0, dirs@.len() as int) =~= ds);
    Ok(out)
}

/// The image directories of a prefix come first among those of the whole.
proof fn lemma_image_leaves_prefix(ds: Seq<Seq<char>>, n: int)
    requires
        0 <= n <= ds.len(),
    ensures
        image_leaves(ds.subrange(0, n)).len() <= image_leaves(ds).len(),
        forall|j: int|
            0 <= j < image_leaves(ds.subrange(0, n)).len() ==> #[trigger] image_leaves(ds)[j]
                == image_leaves(ds.subrange(0, n))[j],
    decreases ds.len() - n,
{
    if n < ds.len() {
        lemma_image_leaves_prefix(ds, n + 1);
        let a = ds.subrange(0, n);
        let b = ds.subrange(0, n + 1);
        assert(b.drop_last() =~= a);
    } else {
        assert(ds.subrange(0, n) =~= ds);
    }
}

} // verus!
