use vstd::prelude::*;
use crate::paths::{joined_path, path_join};
use crate::text::{copy_str, same_text, views_of};

verus! {

/// One library directory, as the settings list it.
pub struct DirectoryItem {
    pub path: String,
}

/// The list of library directories.
pub struct DirectoriesTable {
    path: Vec<String>,
}

/// Where the thumbnails are cached, when it was set.
struct CacheTable {
    directory: String,
}

/// The storage settings: the library directories and the thumbnail cache
/// directory.
pub struct DirectoriesConfig {
    directories: DirectoriesTable,
    cache: Option<CacheTable>,
}

/// `Path::join` of `base` with `spessartine` and then `thumbnails`.
pub open spec fn thumbnails_under(base: Seq<char>) -> Seq<char> {
    joined_path(
        joined_path(base, seq!['s', 'p', 'e', 's', 's', 'a', 'r', 't', 'i', 'n', 'e']),
        seq!['t', 'h', 'u', 'm', 'b', 'n', 'a', 'i', 'l', 's'],
    )
}

/// The default thumbnail cache directory, under the user's data directory
/// `data_dir` (the current directory when there is none).
pub open spec fn default_cache_dir_spec(data_dir: Option<Seq<char>>) -> Seq<char> {
    match data_dir {
        Some(d) => thumbnails_under(d),
        None => thumbnails_under(seq!['.']),
    }
}

/// `dirs::data_dir`: the user's data directory, which depends on the
/// platform and the environment; nothing is stated of it.
#[verifier::external_body]
fn user_data_dir() -> Option<String> {
    dirs::data_dir().map(|p| p.to_string_lossy().into_owned())
}

/// The default thumbnail cache directory under the data directory
/// `data_dir`.
pub fn default_cache_dir_under(data_dir: Option<String>) -> (r: String)
    ensures
        r@ == default_cache_dir_spec(
            match data_dir {
                Some(d) => Some(d@),
                None => None,
            },
        ),
{
    let base = match data_dir {
        Some(d) => d,
        None => copy_str("."),
    };
    proof {
        reveal_strlit(".");
        reveal_strlit("spessartine");
        reveal_strlit("thumbnails");
    }
    let app_dir = path_join(base.as_str(), "spessartine");
    let r = path_join(app_dir.as_str(), "thumbnails");
    assert("spessartine"@ =~= seq!['s', 'p', 'e', 's', 's', 'a', 'r', 't', 'i', 'n', 'e']);
    assert("thumbnails"@ =~= seq!['t', 'h', 'u', 'm', 'b', 'n', 'a', 'i', 'l', 's']);
    assert(".".view() =~= seq!['.']);
    r
}

/// The default thumbnail cache directory: `spessartine/thumbnails` under
/// the user's data directory.
pub fn default_cache_dir() -> (r: String)
    ensures
        exists|d: Option<Seq<char>>| r@ == #[trigger] default_cache_dir_spec(d),
{
    let d = user_data_dir();
    let ghost dv = match &d {
        Some(s) => Some(s@),
        None => None,
    };
    let r = default_cache_dir_under(d);
    assert(r@ == default_cache_dir_spec(dv));
    r
}

/// The library directories `paths` with `p` added at the end, unless it
/// is listed already.
pub open spec fn with_directory(paths: Seq<Seq<char>>, p: Seq<char>) -> Seq<Seq<char>> {
    if paths.contains(p) {
        paths
    } else {
        paths.push(p)
    }
}

/// Adding a directory twice is adding it once; an added directory is
/// listed, and every directory listed before stays, in its place.
pub proof fn lemma_add_directory_idempotent(paths: Seq<Seq<char>>, p: Seq<char>)
    ensures
        with_directory(with_directory(paths, p), p) == with_directory(paths, p),
        with_directory(paths, p).contains(p),
        forall|i: int| 0 <= i < paths.len() ==> #[trigger] with_directory(paths, p)[i] == paths[i],
{
    if !paths.contains(p) {
        assert(paths.push(p)[paths.len() as int] == p);
    }
}

/// `assets/example`, the directory of the example library.
pub open spec fn example_dir() -> Seq<char> {
    seq!['a', 's', 's', 'e', 't', 's', '/', 'e', 'x', 'a', 'm', 'p', 'l', 'e']
}

impl DirectoriesConfig {
    /// The library directories, in order.
    pub closed spec fn paths(&self) -> Seq<Seq<char>> {
        views_of(self.directories.path@)
    }

    /// The thumbnail cache directory, when it was set.
    pub closed spec fn cache_setting(&self) -> Option<Seq<char>> {
        match self.cache {
            Some(c) => Some(c.directory@),
            None => None,
        }
    }

    /// The settings of a first start: the example library under the
    /// settings directory `base_dir`, and no cache directory set.
    pub fn new(base_dir: &str) -> (r: Self)
        ensures
            r.paths() == seq![joined_path(base_dir@, example_dir())],
            r.cache_setting() is None,
    {
        let example = path_join(base_dir, "assets/example");
        proof {
            reveal_strlit("assets/example");
        }
        assert("assets/example"@ =~= example_dir());
        let mut path: Vec<String> = Vec::new();
        path.push(example);
        let r = DirectoriesConfig { directories: DirectoriesTable { path }, cache: None };
        assert(r.paths() =~= seq![joined_path(base_dir@, example_dir())]);
        r
    }

    /// Settings holding the library directories `paths` and the cache
    /// directory `cache_dir`.
    pub fn from_parts(paths: Vec<String>, cache_dir: Option<String>) -> (r: Self)
        ensures
            r.paths() == views_of(paths@),
            r.cache_setting() == match cache_dir {
                Some(c) => Some(c@),
                None => None::<Seq<char>>,
            },
    {
        let cache = match cache_dir {
            Some(directory) => Some(CacheTable { directory }),
            None => None,
        };
        DirectoriesConfig { directories: DirectoriesTable { path: paths }, cache }
    }

    /// The cache directory setting, when there is one.
    pub fn cache_dir_setting(&self) -> (r: Option<String>)
        ensures
            match r {
                Some(c) => self.cache_setting() == Some(c@),
                None => self.cache_setting() is None,
            },
    {
        match &self.cache {
            Some(c) => Some(copy_str(c.directory.as_str())),
            None => None,
        }
    }

    /// Whether `path` is among the library directories.
    fn has_directory(&self, path: &str) -> (r: bool)
        ensures
            r == self.paths().contains(path@),
    {
        let mut i: usize = 0;
        while i < self.directories.path.len()
            invariant
                0 <= i <= self.directories.path@.len(),
                forall|k: int| 0 <= k < i ==> self.directories.path@[k]@ != path@,
            decreases self.directories.path@.len() - i,
        {
            if same_text(self.directories.path[i].as_str(), path) {
                assert(self.paths()[i as int] == path@);
                return true;
            }
            i += 1;
        }
        assert(!self.paths().contains(path@)) by {
            if self.paths().contains(path@) {
                let k = choose|k: int| 0 <= k < self.paths().len() && self.paths()[k] == path@;
                assert(self.directories.path@[k]@ == path@);
            }
        }
        false
    }

    /// Adds a library directory, unless it is listed already.
    pub fn add_directory(&mut self, path: String)
        ensures
            final(self).paths() == with_directory(old(self).paths(), path@),
            final(self).cache_setting() == old(self).cache_setting(),
    {
        if !self.has_directory(path.as_str()) {
            let ghost p0 = self.directories.path@;
            let ghost v = path@;
            self.directories.path.push(path);
            assert(views_of(self.directories.path@) =~= views_of(p0).push(v));
        }
    }

    /// Removes the library directory at `index`, if there is one.
    pub fn remove_directory(&mut self, index: usize)
        ensures
            final(self).paths() == if index < old(self).paths().len() {
                old(self).paths().remove(index as int)
            } else {
                old(self).paths()
            },
            final(self).cache_setting() == old(self).cache_setting(),
    {
        if index < self.directories.path.len() {
            let ghost p0 = self.directories.path@;
            self.directories.path.remove(index);
            assert(views_of(self.directories.path@) =~= views_of(p0).remove(
                index as int,
            ));
        }
    }

    /// The library directories, in order.
    pub fn get_directories(&self) -> (r: Vec<DirectoryItem>)
        ensures
            r@.len() == self.paths().len(),
            forall|i: int| 0 <= i < r@.len() ==> (#[trigger] r@[i]).path@ == self.paths()[i],
    {
        let mut r: Vec<DirectoryItem> = Vec::new();
        let mut i: usize = 0;
        while i < self.directories.path.len()
            invariant
                0 <= i <= self.directories.path@.len(),
                r@.len() == i,
                forall|k: int| 0 <= k < i ==> (#[trigger] r@[k]).path@ == self.paths()[k],
            decreases self.directories.path@.len() - i,
        {
            r.push(DirectoryItem { path: copy_str(self.directories.path[i].as_str()) });
            i += 1;
        }
        r
    }

    /// The thumbnail cache directory: the one set, else the default.
    pub fn get_cache_dir(&self) -> (r: String)
        ensures
            match self.cache_setting() {
                Some(c) => r@ == c,
                None => exists|d: Option<Seq<char>>| r@ == #[trigger] default_cache_dir_spec(d),
            },
    {
        match &self.cache {
            Some(c) => copy_str(c.directory.as_str()),
            None => default_cache_dir(),
        }
    }

    /// Sets the thumbnail cache directory.
    pub fn set_cache_dir(&mut self, path: String)
        ensures
            final(self).cache_setting() == Some(path@),
            final(self).paths() == old(self).paths(),
    {
        self.cache = Some(CacheTable { directory: path });
    }
}

} // verus!
