//! The ocipkg config blob: which files each layer holds.

use vstd::prelude::*;

use crate::digest::Digest;

verus! {

/// The texts of a list of paths.
pub open spec fn path_texts(ps: Seq<String>) -> Seq<Seq<char>> {
    ps.map_values(|p: String| p@)
}

/// The files of one layer.
#[derive(Debug, Clone, PartialEq, Eq)]
pub struct LayerFiles {
    pub digest: Digest,
    pub paths: Vec<String>,
}

/// `(digest text, path texts)` of each layer, in order.
pub open spec fn layer_texts(ls: Seq<LayerFiles>) -> Seq<(Seq<char>, Seq<Seq<char>>)> {
    ls.map_values(|l: LayerFiles| (l.digest.text(), path_texts(l.paths@)))
}

/// Index of the first layer with digest text `d`, or -1.
pub open spec fn layer_index(ls: Seq<(Seq<char>, Seq<Seq<char>>)>, d: Seq<char>) -> int
    decreases ls.len(),
{
    if ls.len() == 0 {
        -1
    } else if ls[0].0 == d {
        0
    } else {
        let j = layer_index(ls.drop_first(), d);
        if j < 0 {
            -1
        } else {
            j + 1
        }
    }
}

/// All paths, layer after layer.
pub open spec fn all_paths(ls: Seq<(Seq<char>, Seq<Seq<char>>)>) -> Seq<Seq<char>>
    decreases ls.len(),
{
    if ls.len() == 0 {
        Seq::empty()
    } else {
        all_paths(ls.drop_last()) + ls.last().1
    }
}

/// The contents of an `application/vnd.ocipkg.v1.config+json` blob: for each
/// layer digest, the relative paths of the files in that layer.
#[derive(Debug, Clone, PartialEq, Eq)]
pub struct Config {
    layers: Vec<LayerFiles>,
}

impl View for Config {
    type V = Seq<(Seq<char>, Seq<Seq<char>>)>;

    closed spec fn view(&self) -> Seq<(Seq<char>, Seq<Seq<char>>)> {
        layer_texts(self.layers@)
    }
}

impl Config {
    /// No layers.
    pub fn new() -> (r: Config)
        ensures
            r@ == Seq::<(Seq<char>, Seq<Seq<char>>)>::empty(),
    {
        let r = Config { layers: Vec::new() };
        assert(r@ =~= Seq::<(Seq<char>, Seq<Seq<char>>)>::empty());
        r
    }

    /// The layers with their files, in the order they were added.
    pub fn layers(&self) -> (r: &Vec<LayerFiles>)
        ensures
            layer_texts(r@) == self@,
    {
        &self.layers
    }

    /// Records the files of a layer; a layer added again keeps its place and
    /// takes the new list.
    pub fn add_layer(&mut self, digest: Digest, paths: Vec<String>)
        ensures
            final(self)@ == (if layer_index(old(self)@, digest.text()) >= 0 {
                old(self)@.update(layer_index(old(self)@, digest.text()), (digest.text(), path_texts(paths@)))
            } else {
                old(self)@.push((digest.text(), path_texts(paths@)))
            }),
    {
        let ghost t = self@;
        let ghost entry = (digest.text(), path_texts(paths@));
        let mut i: usize = 0;
        assert(t.subrange(0, t.len() as int) =~= t);
        while i < self.layers.len()
            invariant
                t == layer_texts(self.layers@),
                t == old(self)@,
                entry == (digest.text(), path_texts(paths@)),
                i <= t.len(),
                layer_index(t, digest.text()) == (if layer_index(t.subrange(i as int, t.len() as int), digest.text()) < 0 {
                    -1
                } else {
                    i + layer_index(t.subrange(i as int, t.len() as int), digest.text())
                }),
            decreases t.len() - i,
        {
            let ghost rest = t.subrange(i as int, t.len() as int);
            assert(rest[0] == t[i as int]);
            let here = self.layers[i].digest.to_string();
            let wanted = digest.to_string();
            if here == wanted {
                self.layers.set(i, LayerFiles { digest, paths });
                assert(layer_texts(self.layers@) =~= t.update(i as int, entry));
                return;
            }
            assert(rest.drop_first() =~= t.subrange(i + 1, t.len() as int));
            i = i + 1;
        }
        self.layers.push(LayerFiles { digest, paths });
        assert(layer_texts(self.layers@) =~= t.push(entry));
    }

    /// Every recorded file path, layer after layer.
    pub fn files(&self) -> (r: Vec<String>)
        ensures
            path_texts(r@) == all_paths(self@),
    {
        let ghost t = self@;
        let mut r: Vec<String> = Vec::new();
        let mut i: usize = 0;
        assert(t.subrange(0, 0) =~= Seq::<(Seq<char>, Seq<Seq<char>>)>::empty());
        while i < self.layers.len()
            invariant
                t == layer_texts(self.layers@),
                i <= t.len(),
                path_texts(r@) == all_paths(t.subrange(0, i as int)),
            decreases t.len() - i,
        {
            let ps = &self.layers[i].paths;
            let ghost before = r@;
            let mut j: usize = 0;
            while j < ps.len()
                invariant
                    j <= ps@.len(),
                    path_texts(r@) == path_texts(before) + path_texts(ps@.subrange(0, j as int)),
                decreases ps@.len() - j,
            {
                let ghost old_r = r@;
                r.push(ps[j].clone());
                assert(r@ == old_r.push(ps@[j as int]));
                assert(path_texts(r@) =~= path_texts(old_r).push(ps@[j as int]@));
                assert(path_texts(ps@.subrange(0, j + 1)) =~= path_texts(ps@.subrange(0, j as int)).push(ps@[j as int]@));
                assert(path_texts(r@) =~= path_texts(before) + path_texts(ps@.subrange(0, j + 1)));
                j = j + 1;
            }
            assert(ps@.subrange(0, ps@.len() as int) =~= ps@);
            assert(t.subrange(0, i + 1).drop_last() =~= t.subrange(0, i as int));
            assert(t[i as int].1 == path_texts(ps@));
            i = i + 1;
        }
        assert(t.subrange(0, t.len() as int) =~= t);
        r
    }
}

} // verus!
