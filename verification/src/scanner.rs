use vstd::prelude::*;
use crate::archive::{Archive, ArchiveError, lists_pages, page_names, zip_entry_names};
use crate::mode::ReaderMode;
use crate::hashing::{hash_str, str_hash};
use crate::sorting::NaturalKey;
use crate::text::{chars_of, copy_str, lowercase, same_text, to_lowercase, views_of};
use crate::paths::{file_name_of, file_stem, file_stem_of, parent_path, path_extension, path_extension_of, path_file_name, path_parent, paths_equal, same_path};
use crate::sorting::is_stable_natural_sort;

verus! {

/// A title of the library: the archives found in one directory.
#[derive(Clone, Debug)]
pub struct MangaItem {
    pub id: u64,
    pub name: String,
    pub directory: String,
    pub archives: Vec<String>,
    pub is_single_archive: bool,
    pub manual_mode: Option<ReaderMode>,
    pub auto_mode: Option<ReaderMode>,
    pub manual_rtl: Option<bool>,
    pub auto_rtl: Option<bool>,
}

impl MangaItem {
    pub open spec fn effective_mode_spec(&self) -> ReaderMode {
        match self.manual_mode {
            Some(m) => m,
            None => match self.auto_mode {
                Some(m) => m,
                None => ReaderMode::Manga,
            },
        }
    }

    pub open spec fn effective_rtl_spec(&self) -> bool {
        match self.manual_rtl {
            Some(r) => r,
            None => match self.auto_rtl {
                Some(r) => r,
                None => false,
            },
        }
    }

    /// The reading mode to use: the one set by hand, else the detected one,
    /// else manga.
    pub fn effective_mode(&self) -> (r: ReaderMode)
        ensures
            r == self.effective_mode_spec(),
    {
        match self.manual_mode {
            Some(m) => m,
            None => match self.auto_mode {
                Some(m) => m,
                None => ReaderMode::Manga,
            },
        }
    }

    /// Whether to read right to left: the direction set by hand, else the
    /// detected one, else left to right.
    pub fn effective_rtl(&self) -> (r: bool)
        ensures
            r == self.effective_rtl_spec(),
    {
        match self.manual_rtl {
            Some(r) => r,
            None => match self.auto_rtl {
                Some(r) => r,
                None => false,
            },
        }
    }

    /// Whether `archive_path` is one of this title's archives.
    pub fn has_archive(&self, archive_path: &str) -> (r: bool)
        ensures
            r == has_archive_spec(self.archives@, archive_path@),
    {
        let mut i: usize = 0;
        while i < self.archives.len()
            invariant
                0 <= i <= self.archives.len(),
                forall|k: int| 0 <= k < i ==> self.archives@[k]@ != archive_path@,
            decreases self.archives.len() - i,
        {
            if same_text(self.archives[i].as_str(), archive_path) {
                return true;
            }
            i += 1;
        }
        false
    }
}

pub open spec fn has_archive_spec(archives: Seq<String>, path: Seq<char>) -> bool {
    exists|k: int| 0 <= k < archives.len() && (#[trigger] archives[k])@ == path
}

impl NaturalKey for MangaItem {
    open spec fn natural_key(&self) -> Seq<char> {
        self.name@
    }

    fn key_chars(&self) -> (r: Vec<char>) {
        chars_of(self.name.as_str())
    }
}

/// A chapter: one archive of a title.
#[derive(Clone, Debug)]
pub struct ChapterItem {
    pub id: u64,
    pub name: String,
    pub path: String,
}

impl NaturalKey for ChapterItem {
    open spec fn natural_key(&self) -> Seq<char> {
        self.name@
    }

    fn key_chars(&self) -> (r: Vec<char>) {
        chars_of(self.name.as_str())
    }
}

/// A page: one image of a chapter archive.
#[derive(Clone, Debug)]
pub struct PageItem {
    pub id: u64,
    pub name: String,
    pub archive_path: String,
}

/// The identifier of a title or chapter: the hash of its path.
pub fn generate_id(path: &str) -> (r: u64)
    ensures
        r == str_hash(path@),
{
    hash_str(path)
}

/// The pages of the chapter at `archive_path`, one per image name, numbered
/// from 0 in the order given.
pub fn pages_from_names(archive_path: &str, names: Vec<String>) -> (pages: Vec<PageItem>)
    ensures
        pages.len() == names.len(),
        forall|i: int|
            0 <= i < pages.len() ==> {
                &&& (#[trigger] pages@[i]).id == i
                &&& pages@[i].name@ == names@[i]@
                &&& pages@[i].archive_path@ == archive_path@
            },
{
    let mut pages: Vec<PageItem> = Vec::new();
    let mut i: usize = 0;
    while i < names.len()
        invariant
            0 <= i <= names.len(),
            pages.len() == i,
            forall|k: int|
                0 <= k < i ==> {
                    &&& (#[trigger] pages@[k]).id == k
                    &&& pages@[k].name@ == names@[k]@
                    &&& pages@[k].archive_path@ == archive_path@
                },
        decreases names.len() - i,
    {
        let name = copy_str(names[i].as_str());
        pages.push(PageItem { id: i as u64, name, archive_path: copy_str(archive_path) });
        i += 1;
    }
    pages
}

/// Sorts titles in natural order of their names (stable).
pub fn sort_manga_by_name(list: &mut Vec<MangaItem>)
    ensures
        crate::sorting::is_stable_natural_sort(old(list)@, final(list)@),
{
    crate::sorting::sort_natural(list);
}

/// Sorts chapters in natural order of their names (stable).
pub fn sort_chapters_by_name(list: &mut Vec<ChapterItem>)
    ensures
        crate::sorting::is_stable_natural_sort(old(list)@, final(list)@),
{
    crate::sorting::sort_natural(list);
}

/// Sorts paths in natural order (stable).
pub fn sort_paths(list: &mut Vec<String>)
    ensures
        crate::sorting::is_stable_natural_sort(old(list)@, final(list)@),
{
    crate::sorting::sort_natural(list);
}

/// The pages of the chapter archive at `archive_path`, whose bytes are
/// `data`: one per page image, in natural order, numbered from 0.
pub fn get_pages(archive_path: &str, data: &[u8]) -> (r: Result<Vec<PageItem>, ArchiveError>)
    ensures
        match r {
            Ok(pages) => exists|listed: Seq<(usize, String)>|
                #[trigger] lists_pages(data@, listed) && pages@.len() == listed.len() && forall|i: int|
                    0 <= i < pages@.len() ==> {
                        &&& (#[trigger] pages@[i]).id == i
                        &&& pages@[i].name@ == listed[i].1@
                        &&& pages@[i].archive_path@ == archive_path@
                    },
            Err(e) => e == ArchiveError::Unreadable && zip_entry_names(data@) is None,
        },
{
    let archive = Archive::new(archive_path)?;
    let images = archive.get_images(data)?;
    let ghost names = images@;
    let pages = pages_from_names(archive_path, images);
    proof {
        let listed = choose|listed: Seq<(usize, String)>|
            lists_pages(data@, listed) && views_of(names) == #[trigger] page_names(listed);
        assert(views_of(names).len() == names.len());
        assert(page_names(listed).len() == listed.len());
        assert forall|i: int| 0 <= i < pages@.len() implies pages@[i].name@ == listed[i].1@ by {
            assert(views_of(names)[i] == names[i]@);
            assert(page_names(listed)[i] == listed[i].1@);
        }
        assert(lists_pages(data@, listed));
    }
    Ok(pages)
}

/// The name given to a title whose name cannot be read from its path.
pub open spec fn unknown_name() -> Seq<char> {
    seq!['U', 'n', 'k', 'n', 'o', 'w', 'n']
}

fn unknown() -> (r: String)
    ensures
        r@ == unknown_name(),
{
    let s = copy_str("Unknown");
    proof {
        reveal_strlit("Unknown");
    }
    assert(s@ =~= unknown_name());
    s
}

/// A name, or `Unknown` when there is none.
pub open spec fn or_unknown(o: Option<Seq<char>>) -> Seq<char> {
    match o {
        Some(s) => s,
        None => unknown_name(),
    }
}

fn string_or_unknown(o: Option<String>) -> (r: String)
    ensures
        r@ == or_unknown(
            match o {
                Some(s) => Some(s@),
                None => None,
            },
        ),
{
    match o {
        Some(s) => s,
        None => unknown(),
    }
}

/// The name of the title held in the directory `path`, found under the
/// library directory `root`: directly under the root, the directory's own
/// stem; deeper, the name of the directory above it.
pub open spec fn manga_name_of_dir(path: Seq<char>, root: Seq<char>) -> Seq<char> {
    match parent_path(path) {
        Some(pp) => if same_path(pp, root) {
            or_unknown(file_stem_of(path))
        } else {
            or_unknown(file_name_of(pp))
        },
        None => unknown_name(),
    }
}

/// The name of the title held in the directory `path` of the library `root`.
pub fn get_manga_name(path: &str, root: &str) -> (r: String)
    ensures
        r@ == manga_name_of_dir(path@, root@),
{
    match path_parent(path) {
        Some(pp) => if paths_equal(pp.as_str(), root) {
            string_or_unknown(file_stem(path))
        } else {
            string_or_unknown(path_file_name(pp.as_str()))
        },
        None => unknown(),
    }
}

/// The archive extensions, in lowercase.
pub open spec fn is_archive_extension(e: Seq<char>) -> bool {
    e == seq!['z', 'i', 'p'] || e == seq!['c', 'b', 'z'] || e == seq!['c', 'b', 'r'] || e == seq!['r', 'a', 'r']
}

/// Whether the file at `p` is a chapter archive, by its extension in any
/// letter case.
pub open spec fn is_archive_path_spec(p: Seq<char>) -> bool {
    match path_extension_of(p) {
        Some(e) => is_archive_extension(lowercase(e)),
        None => false,
    }
}

/// Whether the file at `path` is a chapter archive.
pub fn is_archive_path(path: &str) -> (r: bool)
    ensures
        r == is_archive_path_spec(path@),
{
    match path_extension(path) {
        Some(e) => {
            let l = to_lowercase(e.as_str());
            let v = chars_of(l.as_str());
            let r = (v.len() == 3 && v[0] == 'z' && v[1] == 'i' && v[2] == 'p') || (v.len() == 3 && v[0] == 'c'
                && v[1] == 'b' && v[2] == 'z') || (v.len() == 3 && v[0] == 'c' && v[1] == 'b' && v[2] == 'r') || (
            v.len() == 3 && v[0] == 'r' && v[1] == 'a' && v[2] == 'r');
            assert(r == is_archive_extension(v@)) by {
                if v.len() == 3 {
                    assert(v@ =~= seq![v@[0], v@[1], v@[2]]);
                }
            }
            r
        },
        None => false,
    }
}

/// The archives found in one directory of a library, in the order found.
pub struct ArchiveGroup {
    pub directory: String,
    pub archives: Vec<String>,
}

/// What a walk of one library directory found: its archive groups, each
/// directory's subdirectories before its own archives.
pub struct LibraryScan {
    pub root: String,
    pub groups: Vec<ArchiveGroup>,
}

/// The name of the title made of the archives `archives` of the directory
/// `dir` in the library `root`: archives lying directly in the root form
/// one title named after the first of them.
pub open spec fn group_name(dir: Seq<char>, archives: Seq<String>, root: Seq<char>) -> Seq<char> {
    if same_path(dir, root) {
        or_unknown(file_stem_of(archives[0]@))
    } else {
        manga_name_of_dir(dir, root)
    }
}

/// `m` is the title made of the archives `archives` found in `dir` of the
/// library `root`, with no reading mode chosen or detected yet.
pub open spec fn is_manga_of(m: MangaItem, dir: Seq<char>, archives: Seq<String>, root: Seq<char>) -> bool {
    &&& m.id == str_hash(dir)
    &&& m.name@ == group_name(dir, archives, root)
    &&& m.directory@ == dir
    &&& m.archives@ == archives
    &&& m.is_single_archive == same_path(dir, root)
    &&& m.manual_mode is None
    &&& m.auto_mode is None
    &&& m.manual_rtl is None
    &&& m.auto_rtl is None
}

/// Every group found in `libs`, in order, with the root of its library.
pub open spec fn scanned_groups(libs: Seq<LibraryScan>) -> Seq<(Seq<char>, ArchiveGroup)>
    decreases libs.len(),
{
    if libs.len() == 0 {
        Seq::empty()
    } else {
        scanned_groups(libs.drop_last()) + libs.last().groups@.map_values(
            |g: ArchiveGroup| (libs.last().root@, g),
        )
    }
}

/// `found` holds, in order, the titles made of the groups of `libs`.
pub open spec fn found_all(libs: Seq<LibraryScan>, found: Seq<MangaItem>) -> bool {
    let gs = scanned_groups(libs);
    &&& found.len() == gs.len()
    &&& forall|i: int|
        0 <= i < found.len() ==> is_manga_of(
            #[trigger] found[i],
            gs[i].1.directory@,
            gs[i].1.archives@,
            gs[i].0,
        )
}

/// Every group of `libs` holds at least one archive.
pub open spec fn groups_nonempty(libs: Seq<LibraryScan>) -> bool {
    forall|i: int, j: int|
        0 <= i < libs.len() && 0 <= j < libs[i].groups@.len() ==> (#[trigger] libs[i].groups@[j]).archives@.len() > 0
}

/// The title made of the archives of `group`, found in the library `root`.
pub fn manga_from_group(root: &str, group: ArchiveGroup) -> (m: MangaItem)
    requires
        group.archives@.len() > 0,
    ensures
        is_manga_of(m, group.directory@, group.archives@, root@),
{
    let ArchiveGroup { directory, archives } = group;
    let is_single_archive = paths_equal(directory.as_str(), root);
    let name = if is_single_archive {
        string_or_unknown(file_stem(archives[0].as_str()))
    } else {
        get_manga_name(directory.as_str(), root)
    };
    let id = generate_id(directory.as_str());
    MangaItem {
        id,
        name,
        directory,
        archives,
        is_single_archive,
        manual_mode: None,
        auto_mode: None,
        manual_rtl: None,
        auto_rtl: None,
    }
}

/// The titles of all libraries: one per archive group found, sorted
/// stably in natural order of their names.
pub fn scan_all_libraries(libraries: Vec<LibraryScan>) -> (r: Vec<MangaItem>)
    requires
        groups_nonempty(libraries@),
    ensures
        exists|found: Seq<MangaItem>| #[trigger] found_all(libraries@, found) && is_stable_natural_sort(found, r@),
{
    let ghost libs = libraries@;
    let total = libraries.len();
    assert(libs.len() == total);
    let mut rest = libraries;
    let mut found: Vec<MangaItem> = Vec::new();
    let mut li: usize = 0;
    while rest.len() > 0
        invariant
            li + rest@.len() == libs.len(),
            libs.len() <= usize::MAX,
            rest@ == libs.skip(li as int),
            groups_nonempty(libs),
            found_all(libs.subrange(0, li as int), found@),
        decreases rest@.len(),
    {
        proof {
            assert(libs.skip(li as int)[0] == libs[li as int]);
        }
        let lib = rest.remove(0);
        assert(rest@ =~= libs.skip(li + 1));
        assert(lib == libs[li as int]);
        let LibraryScan { root, groups } = lib;
        assert(root == libs[li as int].root);
        assert(groups == libs[li as int].groups);
        let ghost g0 = groups@;
        let group_count = groups.len();
        assert(g0.len() == group_count);
        let ghost before = found@;
        let ghost prev = scanned_groups(libs.subrange(0, li as int));
        assert(found_all(libs.subrange(0, li as int), before));
        let mut gs = groups;
        let mut gi: usize = 0;
        while gs.len() > 0
            invariant
                gi + gs@.len() == g0.len(),
                g0.len() <= usize::MAX,
                gs@ == g0.skip(gi as int),
                forall|j: int| 0 <= j < g0.len() ==> (#[trigger] g0[j]).archives@.len() > 0,
                before.len() == prev.len(),
                found@.len() == before.len() + gi,
                forall|k: int| 0 <= k < before.len() ==> found@[k] == before[k],
                forall|k: int|
                    0 <= k < gi ==> is_manga_of(
                        #[trigger] found@[before.len() + k],
                        g0[k].directory@,
                        g0[k].archives@,
                        root@,
                    ),
            decreases gs@.len(),
        {
            proof {
                assert(g0.skip(gi as int)[0] == g0[gi as int]);
            }
            let g = gs.remove(0);
            assert(gs@ =~= g0.skip(gi + 1));
            let m = manga_from_group(root.as_str(), g);
            found.push(m);
            gi += 1;
        }
        proof {
            let libs1 = libs.subrange(0, li + 1);
            assert(libs1.drop_last() =~= libs.subrange(0, li as int));
            assert(libs1.last() == libs[li as int]);
            assert(libs1.last().groups@ == g0);
            assert(libs1.last().root@ == root@);
            let added = g0.map_values(|g: ArchiveGroup| (root@, g));
            assert(scanned_groups(libs1) =~= prev + added);
            let gs1 = scanned_groups(libs1);
            assert forall|i: int| 0 <= i < found@.len() implies is_manga_of(
                #[trigger] found@[i],
                gs1[i].1.directory@,
                gs1[i].1.archives@,
                gs1[i].0,
            ) by {
                assert(gs1.len() == prev.len() + added.len());
                if i >= before.len() {
                    let k = i - before.len();
                    assert(0 <= k < gi);
                    assert(gs1[i] == added[k]);
                    assert(found@[before.len() + k] == found@[i]);
                } else {
                    assert(gs1[i] == prev[i]);
                    assert(found@[i] == before[i]);
                    assert(is_manga_of(before[i], prev[i].1.directory@, prev[i].1.archives@, prev[i].0));
                }
            }
        }
        li += 1;
    }
    assert(libs.subrange(0, libs.len() as int) =~= libs);
    let ghost all = found@;
    sort_manga_by_name(&mut found);
    found
}

/// Whether `p`'s file is a chapter archive; the chapters among `paths`.
pub open spec fn archive_paths(paths: Seq<String>) -> Seq<String>
    decreases paths.len(),
{
    if paths.len() == 0 {
        Seq::empty()
    } else if is_archive_path_spec(paths.last()@) {
        archive_paths(paths.drop_last()).push(paths.last())
    } else {
        archive_paths(paths.drop_last())
    }
}

/// `c` is the chapter stored at `path`: named by the file's stem (empty
/// when there is none), identified by the hash of its path.
pub open spec fn is_chapter_of(c: ChapterItem, path: Seq<char>) -> bool {
    &&& c.id == str_hash(path)
    &&& c.name@ == match file_stem_of(path) {
        Some(s) => s,
        None => Seq::empty(),
    }
    &&& c.path@ == path
}

/// The chapters of a title directory whose entries are at `paths`: one per
/// chapter archive, sorted stably in natural order of their names.
pub fn chapters_from_paths(paths: Vec<String>) -> (r: Vec<ChapterItem>)
    ensures
        exists|found: Seq<ChapterItem>|
            #![trigger is_stable_natural_sort(found, r@)]
            found.len() == archive_paths(paths@).len() && (forall|i: int|
                0 <= i < found.len() ==> is_chapter_of(#[trigger] found[i], archive_paths(paths@)[i]@))
                && is_stable_natural_sort(found, r@),
{
    let ghost all = paths@;
    let mut chapters: Vec<ChapterItem> = Vec::new();
    let mut i: usize = 0;
    while i < paths.len()
        invariant
            0 <= i <= paths@.len(),
            paths@ == all,
            chapters@.len() == archive_paths(all.subrange(0, i as int)).len(),
            forall|k: int|
                0 <= k < chapters@.len() ==> is_chapter_of(
                    #[trigger] chapters@[k],
                    archive_paths(all.subrange(0, i as int))[k]@,
                ),
        decreases paths@.len() - i,
    {
        let ghost sub = all.subrange(0, i + 1);
        assert(sub.drop_last() =~= all.subrange(0, i as int));
        assert(sub.last() == all[i as int]);
        let p = paths[i].as_str();
        if is_archive_path(p) {
            let name = match file_stem(p) {
                Some(s) => s,
                None => String::new(),
            };
            chapters.push(ChapterItem { id: generate_id(p), name, path: copy_str(p) });
        }
        i += 1;
    }
    assert(all.subrange(0, all.len() as int) =~= all);
    let ghost found = chapters@;
    sort_chapters_by_name(&mut chapters);
    chapters
}

} // verus!
