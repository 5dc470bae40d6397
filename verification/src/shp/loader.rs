//! A directory of SHP files by name, with the frames already decoded kept
//! for each file and palette.
use vstd::prelude::*;
use vstd::hash_map::StringHashMap;
use super::reader::str_eq;
use super::types::ShapeUnitFrame;

verus! {

/// The SHP files known by name (file stem to path), and the frames decoded
/// so far, under the key that `cache_key` makes of a file and a palette.
///
/// Both maps are vstd's `StringHashMap`, whose contents vstd states for
/// string keys; paths are held as strings.
pub struct Loader {
    pub paths: StringHashMap<String>,
    cache: StringHashMap<Vec<ShapeUnitFrame>>,
}

/// What loading a file with a palette takes.
pub enum LoadPlan {
    /// No SHP file of that name is known.
    NotFound,
    /// The frames are decoded already, under this key.
    Cached(String),
    /// The file at `path` has to be read and its frames kept under `key`.
    Read { key: String, path: String },
}

/// The key that the frames of file `shp_prefix` drawn with palette
/// `pal_prefix` are kept under: the two names joined by a hyphen.
pub open spec fn cache_key_of(shp_prefix: Seq<char>, pal_prefix: Seq<char>) -> Seq<char> {
    shp_prefix + "-"@ + pal_prefix
}

/// What loading takes, given the known paths and the kept frames: an
/// unknown file is not found (whether or not frames were kept); kept frames
/// are reused; otherwise the file is read.
pub open spec fn plan_of(
    paths: Map<Seq<char>, String>,
    cached: Set<Seq<char>>,
    shp_prefix: Seq<char>,
    pal_prefix: Seq<char>,
) -> (bool, bool) {
    let found = paths.contains_key(shp_prefix);
    (found, found && cached.contains(cache_key_of(shp_prefix, pal_prefix)))
}

impl Loader {
    /// The paths known so far, by file stem.
    pub closed spec fn paths_view(&self) -> Map<Seq<char>, String> {
        self.paths@
    }

    /// The frames kept so far, by key.
    pub closed spec fn cache_view(&self) -> Map<Seq<char>, Vec<ShapeUnitFrame>> {
        self.cache@
    }

    /// A loader that knows no file and keeps no frames.
    pub fn new_empty() -> (r: Loader)
        ensures
            r.paths_view() == Map::<Seq<char>, String>::empty(),
            r.cache_view() == Map::<Seq<char>, Vec<ShapeUnitFrame>>::empty(),
    {
        Loader { paths: StringHashMap::new(), cache: StringHashMap::new() }
    }

    /// Takes note of a directory entry: an entry whose extension is `shp`
    /// and whose stem is known is recorded under its stem.
    pub fn register(&mut self, extension: Option<&str>, stem: Option<&str>, path: String)
        ensures
            final(self).paths_view() == match (extension, stem) {
                (Some(e), Some(s)) => if e@ == "shp"@ {
                    old(self).paths_view().insert(s@, path)
                } else {
                    old(self).paths_view()
                },
                _ => old(self).paths_view(),
            },
            final(self).cache_view() == old(self).cache_view(),
    {
        if let Some(e) = extension {
            if str_eq(e, "shp") {
                if let Some(s) = stem {
                    self.paths.insert(s.to_owned(), path);
                }
            }
        }
    }

    /// The key that the frames of `shp_prefix` drawn with `pal_prefix` are kept under.
    pub fn cache_key(shp_prefix: &str, pal_prefix: &str) -> (r: String)
        ensures
            r@ == cache_key_of(shp_prefix@, pal_prefix@),
    {
        shp_prefix.to_owned().concat("-").concat(pal_prefix)
    }

    /// The path of the SHP file named `shp_prefix`, if one is known.
    pub fn get_shp_by_prefix(&self, shp_prefix: &str) -> (r: Option<String>)
        ensures
            r matches Some(p) ==> self.paths_view().contains_key(shp_prefix@) && p@ == self.paths_view()[shp_prefix@]@,
            r is None ==> !self.paths_view().contains_key(shp_prefix@),
    {
        match self.paths.get(shp_prefix) {
            Some(p) => Some(p.clone()),
            None => None,
        }
    }

    /// Decides what loading `shp_prefix` with `pal_prefix` takes.
    pub fn plan_load(&self, shp_prefix: &str, pal_prefix: &str) -> (r: LoadPlan)
        ensures
            ({
                let plan = plan_of(self.paths_view(), self.cache_view().dom(), shp_prefix@, pal_prefix@);
                &&& (r is NotFound <==> !plan.0)
                &&& (r is Cached <==> plan.1)
                &&& r matches LoadPlan::Cached(k) ==> k@ == cache_key_of(shp_prefix@, pal_prefix@)
                &&& r matches LoadPlan::Read { key, path } ==> {
                    &&& key@ == cache_key_of(shp_prefix@, pal_prefix@)
                    &&& path@ == self.paths_view()[shp_prefix@]@
                }
            }),
    {
        let key = Self::cache_key(shp_prefix, pal_prefix);
        let shp_path = match self.get_shp_by_prefix(shp_prefix) {
            Some(p) => p,
            None => return LoadPlan::NotFound,
        };
        if self.cache.contains_key(key.as_str()) {
            LoadPlan::Cached(key)
        } else {
            LoadPlan::Read { key, path: shp_path }
        }
    }

    /// The frames kept under `key`, if any.
    pub fn cached(&self, key: &str) -> (r: Option<&Vec<ShapeUnitFrame>>)
        ensures
            r matches Some(v) ==> self.cache_view().contains_key(key@) && *v == self.cache_view()[key@],
            r is None ==> !self.cache_view().contains_key(key@),
    {
        self.cache.get(key)
    }

    /// Keeps `frames` under `key`.
    pub fn store(&mut self, key: String, frames: Vec<ShapeUnitFrame>)
        ensures
            final(self).cache_view() == old(self).cache_view().insert(key@, frames),
            final(self).paths_view() == old(self).paths_view(),
    {
        self.cache.insert(key, frames);
    }
}

/// What a load gives back of a store: once the frames of a known file and a
/// palette are kept, loading them again reuses them.
pub proof fn lemma_store_then_cached(
    paths: Map<Seq<char>, String>,
    cache: Map<Seq<char>, Vec<ShapeUnitFrame>>,
    shp_prefix: Seq<char>,
    pal_prefix: Seq<char>,
    frames: Vec<ShapeUnitFrame>,
)
    requires
        paths.contains_key(shp_prefix),
    ensures
        plan_of(paths, cache.insert(cache_key_of(shp_prefix, pal_prefix), frames).dom(), shp_prefix, pal_prefix).1,
        cache.insert(cache_key_of(shp_prefix, pal_prefix), frames)[cache_key_of(shp_prefix, pal_prefix)] == frames,
{
}

} // verus!
