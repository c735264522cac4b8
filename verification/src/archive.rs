use vstd::prelude::*;
use crate::sorting::{NaturalKey, is_renumbering, is_stable_natural_sort, lemma_renumbering_onto, lemma_stable_sorts_agree, sort_natural};
use crate::natsort::natural_order;
use crate::text::{chars_of, copy_str, same_text, string_from_range, to_lowercase, lowercase, views_of};
use crate::image_processing::{decode_dimensions, image_dimensions};

verus! {

impl NaturalKey for (usize, String) {
    open spec fn natural_key(&self) -> Seq<char> {
        self.1@
    }

    fn key_chars(&self) -> (r: Vec<char>) {
        chars_of(self.1.as_str())
    }
}

/// What follows the last `'.'` of `s`, or all of `s` when it holds none
/// (the first piece `rsplit('.')` yields).
pub open spec fn after_last_dot(s: Seq<char>) -> Seq<char>
    decreases s.len(),
{
    if s.len() == 0 {
        s
    } else if s.last() == '.' {
        Seq::empty()
    } else {
        after_last_dot(s.drop_last()).push(s.last())
    }
}

/// Whether `s` holds `w` as a contiguous part.
pub open spec fn contains_text(s: Seq<char>, w: Seq<char>) -> bool {
    exists|i: int| 0 <= i <= s.len() - w.len() && #[trigger] s.subrange(i, i + w.len()) == w
}

pub open spec fn macosx_text() -> Seq<char> {
    seq!['_', '_', 'M', 'A', 'C', 'O', 'S', 'X']
}

/// The image extensions an archive entry may have (compared in lowercase).
pub open spec fn is_image_extension(e: Seq<char>) -> bool {
    e == seq!['j', 'p', 'g'] || e == seq!['j', 'p', 'e', 'g'] || e == seq!['p', 'n', 'g'] || e == seq![
        'g',
        'i',
        'f',
    ] || e == seq!['w', 'e', 'b', 'p']
}

/// Whether the archive entry `name` is a page image: not a directory, not
/// under `__MACOSX`, and with an image extension in any letter case.
pub open spec fn is_image_entry(name: Seq<char>) -> bool {
    &&& !(name.len() > 0 && name.last() == '/')
    &&& !contains_text(name, macosx_text())
    &&& is_image_extension(lowercase(after_last_dot(name)))
}

/// The page images among the entry names `names`, with their positions.
pub open spec fn image_entries(names: Seq<String>) -> Seq<(usize, String)>
    decreases names.len(),
{
    if names.len() == 0 {
        Seq::empty()
    } else {
        let prev = image_entries(names.drop_last());
        if is_image_entry(names.last()@) {
            prev.push(((names.len() - 1) as usize, names.last()))
        } else {
            prev
        }
    }
}

fn chars_equal(v: &Vec<char>, w: &[char]) -> (r: bool)
    ensures
        r == (v@ == w@),
{
    if v.len() != w.len() {
        return false;
    }
    let mut i: usize = 0;
    while i < v.len()
        invariant
            0 <= i <= v@.len(),
            v@.len() == w@.len(),
            forall|k: int| 0 <= k < i ==> v@[k] == w@[k],
        decreases v@.len() - i,
    {
        if v[i] != w[i] {
            return false;
        }
        i += 1;
    }
    assert(v@ =~= w@);
    true
}

fn image_extension(e: &Vec<char>) -> (r: bool)
    ensures
        r == is_image_extension(e@),
{
    let jpg = ['j', 'p', 'g'];
    let jpeg = ['j', 'p', 'e', 'g'];
    let png = ['p', 'n', 'g'];
    let gif = ['g', 'i', 'f'];
    let webp = ['w', 'e', 'b', 'p'];
    assert(jpg@ =~= seq!['j', 'p', 'g']);
    assert(jpeg@ =~= seq!['j', 'p', 'e', 'g']);
    assert(png@ =~= seq!['p', 'n', 'g']);
    assert(gif@ =~= seq!['g', 'i', 'f']);
    assert(webp@ =~= seq!['w', 'e', 'b', 'p']);
    chars_equal(e, jpg.as_slice()) || chars_equal(e, jpeg.as_slice()) || chars_equal(e, png.as_slice())
        || chars_equal(e, gif.as_slice()) || chars_equal(e, webp.as_slice())
}

/// Whether `v` holds `w` as a contiguous part.
fn has_text(v: &Vec<char>, w: &[char]) -> (r: bool)
    ensures
        r == contains_text(v@, w@),
{
    if w.len() > v.len() {
        assert forall|i: int| 0 <= i <= v@.len() - w@.len() implies #[trigger] v@.subrange(i, i + w@.len()) != w@ by {}
        return false;
    }
    let mut i: usize = 0;
    while i <= v.len() - w.len()
        invariant
            w@.len() <= v@.len(),
            0 <= i <= v@.len() - w@.len() + 1,
            forall|k: int| 0 <= k < i ==> #[trigger] v@.subrange(k, k + w@.len()) != w@,
        decreases v@.len() - i,
    {
        let mut j: usize = 0;
        let mut matching = true;
        while matching && j < w.len()
            invariant
                0 <= j <= w@.len(),
                i + w@.len() <= v@.len() <= usize::MAX,
                forall|k: int| 0 <= k < j ==> v@[i + k] == w@[k],
                !matching ==> j < w@.len() && v@[i + j] != w@[j as int],
            decreases w@.len() - j, (if matching { 1int } else { 0int }),
        {
            let at: usize = i + j;
            if v[at] == w[j] {
                j += 1;
            } else {
                matching = false;
            }
        }
        if j == w.len() {
            assert(v@.subrange(i as int, i + w@.len()) =~= w@);
            return true;
        }
        assert(v@.subrange(i as int, i + w@.len())[j as int] != w@[j as int]);
        i += 1;
    }
    assert forall|k: int| 0 <= k <= v@.len() - w@.len() implies #[trigger] v@.subrange(k, k + w@.len()) != w@ by {
        assert(k < i);
    }
    false
}

/// Whether the archive entry `name` is a page image.
pub fn is_image_entry_name(name: &str) -> (r: bool)
    ensures
        r == is_image_entry(name@),
{
    let v = chars_of(name);
    if v.len() > 0 && v[v.len() - 1] == '/' {
        return false;
    }
    let macosx = ['_', '_', 'M', 'A', 'C', 'O', 'S', 'X'];
    assert(macosx@ =~= macosx_text());
    if has_text(&v, macosx.as_slice()) {
        return false;
    }
    // the text after the last '.'
    let mut k = v.len();
    assert(v@.subrange(0, k as int) =~= v@);
    while k > 0 && v[k - 1] != '.'
        invariant
            k <= v@.len(),
            after_last_dot(v@) == after_last_dot(v@.subrange(0, k as int)) + v@.subrange(k as int, v@.len() as int),
        decreases k,
    {
        proof {
            let s = v@.subrange(0, k as int);
            assert(s.drop_last() =~= v@.subrange(0, k - 1));
            assert(v@.subrange(k - 1, v@.len() as int) =~= seq![s.last()] + v@.subrange(k as int, v@.len() as int));
            assert(after_last_dot(s.drop_last()).push(s.last()) + v@.subrange(k as int, v@.len() as int)
                =~= after_last_dot(s.drop_last()) + v@.subrange(k - 1, v@.len() as int));
        }
        k -= 1;
    }
    proof {
        if k == 0 {
            assert(v@.subrange(0, 0) =~= Seq::<char>::empty());
        }
        assert(after_last_dot(v@.subrange(0, k as int)) =~= Seq::<char>::empty());
        assert(after_last_dot(v@) =~= v@.subrange(k as int, v@.len() as int));
    }
    let ext = string_from_range(&v, k, v.len());
    let lower = to_lowercase(ext.as_str());
    let lv = chars_of(lower.as_str());
    image_extension(&lv)
}

/// The page images of an archive: their positions in the archive and their
/// names, in natural order of the names.
pub struct IndexMap {
    pub entries: Vec<(usize, String)>,
}

/// The archive position stored under `name`: of the entries with that
/// name, the one at the highest position.
pub open spec fn index_lookup(entries: Seq<(usize, String)>, name: Seq<char>) -> Option<usize>
    decreases entries.len(),
{
    if entries.len() == 0 {
        None
    } else {
        let prev = index_lookup(entries.drop_last(), name);
        if entries.last().1@ == name {
            match prev {
                Some(p) => if entries.last().0 > p {
                    Some(entries.last().0)
                } else {
                    prev
                },
                None => Some(entries.last().0),
            }
        } else {
            prev
        }
    }
}

impl IndexMap {
    /// Indexes an archive whose entries, in archive order, are named
    /// `names`: keeps the page images and sorts them in natural order of
    /// their names (stable, so equivalent names keep archive order).
    pub fn build(names: Vec<String>) -> (r: IndexMap)
        ensures
            is_stable_natural_sort(image_entries(names@), r.entries@),
    {
        let n0 = names.len();
        let ghost all = names@;
        assert(all.len() == n0);
        let mut rest = names;
        let mut entries: Vec<(usize, String)> = Vec::new();
        let mut i: usize = 0;
        while rest.len() > 0
            invariant
                0 <= i <= all.len(),
                i + rest@.len() == all.len(),
                all.len() <= usize::MAX,
                rest@ == all.skip(i as int),
                entries@ == image_entries(all.subrange(0, i as int)),
            decreases rest@.len(),
        {
            proof {
                assert(all.subrange(0, i + 1).drop_last() =~= all.subrange(0, i as int));
                assert(all.skip(i as int)[0] == all[i as int]);
            }
            let n = rest.remove(0);
            assert(rest@ =~= all.skip(i + 1));
            if is_image_entry_name(n.as_str()) {
                entries.push((i, n));
            }
            i += 1;
        }
        assert(all.subrange(0, all.len() as int) =~= all);
        sort_natural(&mut entries);
        IndexMap { entries }
    }

    /// The page image names, in order.
    pub fn image_names(&self) -> (r: Vec<String>)
        ensures
            r@.len() == self.entries@.len(),
            forall|i: int| 0 <= i < r@.len() ==> (#[trigger] r@[i])@ == self.entries@[i].1@,
    {
        let mut r: Vec<String> = Vec::new();
        let mut i: usize = 0;
        while i < self.entries.len()
            invariant
                0 <= i <= self.entries@.len(),
                r@.len() == i,
                forall|k: int| 0 <= k < i ==> (#[trigger] r@[k])@ == self.entries@[k].1@,
            decreases self.entries@.len() - i,
        {
            r.push(copy_str(self.entries[i].1.as_str()));
            i += 1;
        }
        r
    }

    /// The archive position of the page image named `name`.
    pub fn lookup_index(&self, name: &str) -> (r: Option<usize>)
        ensures
            r == index_lookup(self.entries@, name@),
    {
        let mut best: Option<usize> = None;
        let mut i: usize = 0;
        while i < self.entries.len()
            invariant
                0 <= i <= self.entries@.len(),
                best == index_lookup(self.entries@.subrange(0, i as int), name@),
            decreases self.entries@.len() - i,
        {
            proof {
                assert(self.entries@.subrange(0, i + 1).drop_last() =~= self.entries@.subrange(0, i as int));
            }
            if same_text(self.entries[i].1.as_str(), name) {
                let pos = self.entries[i].0;
                best = match best {
                    Some(p) => if pos > p {
                        Some(pos)
                    } else {
                        Some(p)
                    },
                    None => Some(pos),
                };
            }
            i += 1;
        }
        assert(self.entries@.subrange(0, self.entries@.len() as int) =~= self.entries@);
        best
    }

    /// The archive position of the first page image.
    pub fn first_zip_index(&self) -> (r: Option<usize>)
        ensures
            self.entries@.len() == 0 ==> r is None,
            self.entries@.len() > 0 ==> r == Some(self.entries@[0].0),
    {
        if self.entries.len() == 0 {
            None
        } else {
            Some(self.entries[0].0)
        }
    }
}

/// The number of entries of the zip archive whose bytes are `data`, as
/// `ZipArchive::len` gives it; `None` when `ZipArchive::new` cannot open
/// the archive.
pub uninterp spec fn zip_entry_count(data: Seq<u8>) -> Option<usize>;

/// The name of entry `index` of the zip archive whose bytes are `data`, as
/// `ZipFile::name` gives it after `ZipArchive::by_index(index)`; `None`
/// when the archive cannot be opened, the entry cannot be opened (an
/// encrypted one, say), or its name cannot be decoded.
pub uninterp spec fn zip_entry_name(data: Seq<u8>, index: usize) -> Option<Seq<char>>;

/// The names of the entries of the zip archive whose bytes are `data`, in
/// archive order, each entry opened in turn; `None` when the archive or
/// one of its entries cannot be opened.
pub open spec fn zip_entry_names(data: Seq<u8>) -> Option<Seq<Seq<char>>> {
    match zip_entry_count(data) {
        None => None,
        Some(n) => if forall|i: usize| i < n ==> #[trigger] zip_entry_name(data, i) is Some {
            Some(Seq::new(n as nat, |i: int| zip_entry_name(data, i as usize)->0))
        } else {
            None
        },
    }
}

/// The whole decompressed contents of entry `index`, as reading
/// `ZipArchive::by_index(index)` to its end gives them; `None` when the
/// archive cannot be opened or the entry cannot be read.
pub uninterp spec fn zip_entry_data(data: Seq<u8>, index: usize) -> Option<Seq<u8>>;

/// The bytes that one `Read::read` of entry `index` into a buffer of
/// `limit` bytes gives; `None` when the archive cannot be opened or the
/// read fails.
pub uninterp spec fn zip_entry_head(data: Seq<u8>, index: usize, limit: usize) -> Option<Seq<u8>>;

/// Opens the archive held in `data` (`ZipArchive::new` over a cursor) and
/// counts its entries (`ZipArchive::len`).
#[verifier::external_body]
fn read_entry_count(data: &[u8]) -> (r: Option<usize>)
    ensures
        r == zip_entry_count(data@),
{
    let archive = zip::ZipArchive::new(std::io::Cursor::new(data)).ok()?;
    Some(archive.len())
}

/// Opens the archive held in `data`, opens its entry `index`
/// (`ZipArchive::by_index`) and gives its name (`ZipFile::name`).
#[verifier::external_body]
fn read_entry_name(data: &[u8], index: usize) -> (r: Option<String>)
    ensures
        match r {
            Some(s) => zip_entry_name(data@, index) == Some(s@),
            None => zip_entry_name(data@, index) is None,
        },
{
    let mut archive = zip::ZipArchive::new(std::io::Cursor::new(data)).ok()?;
    let entry = archive.by_index(index).ok()?;
    let name = entry.name().ok()?.into_owned();
    Some(name)
}

/// Opens the archive held in `data` and reads entry `index` to its end
/// (`ZipArchive::by_index`, `Read::read_to_end`).
#[verifier::external_body]
fn read_entry(data: &[u8], index: usize) -> (r: Option<Vec<u8>>)
    ensures
        match r {
            Some(v) => zip_entry_data(data@, index) == Some(v@),
            None => zip_entry_data(data@, index) is None,
        },
{
    let mut archive = zip::ZipArchive::new(std::io::Cursor::new(data)).ok()?;
    let mut file = archive.by_index(index).ok()?;
    let mut buffer = Vec::new();
    std::io::Read::read_to_end(&mut file, &mut buffer).ok()?;
    Some(buffer)
}

/// Opens the archive held in `data` and reads entry `index` once into a
/// buffer of `limit` bytes (`ZipArchive::by_index`, `Read::read`, which
/// fills at most the buffer with the next bytes of the entry); the bytes
/// read, which are the first bytes of the entry's contents.  When the
/// whole entry can be read, so can its head: the checksum is only checked
/// on a read that comes back empty at the end of the entry.
#[verifier::external_body]
fn read_entry_head(data: &[u8], index: usize, limit: usize) -> (r: Option<Vec<u8>>)
    ensures
        match r {
            Some(v) => zip_entry_head(data@, index, limit) == Some(v@) && v@.len() <= limit,
            None => zip_entry_head(data@, index, limit) is None,
        },
        r matches Some(v) ==> (zip_entry_data(data@, index) matches Some(full) ==> v@.len() <= full.len()
            && v@ == full.subrange(0, v@.len() as int)),
        zip_entry_data(data@, index) is Some ==> r is Some,
{
    let mut archive = zip::ZipArchive::new(std::io::Cursor::new(data)).ok()?;
    let mut file = archive.by_index(index).ok()?;
    let mut header = vec![0u8; limit];
    let n = std::io::Read::read(&mut file, &mut header).ok()?;
    header.truncate(n);
    Some(header)
}

/// Why an archive read failed.
#[derive(Clone, Copy, Debug, PartialEq, Eq, Structural)]
pub enum ArchiveError {
    /// The archive or the entry could not be read.
    Unreadable,
    /// No page image has the name asked for.
    ImageNotFound,
    /// The archive holds no page image.
    NoImages,
}

/// The archive position of the page image named `name`: of the entries
/// with that name, the last (the name must be that of a page image).
pub open spec fn image_position(names: Seq<Seq<char>>, name: Seq<char>) -> Option<usize>
    decreases names.len(),
{
    if names.len() == 0 {
        None
    } else if names.last() == name && is_image_entry(name) {
        Some((names.len() - 1) as usize)
    } else {
        image_position(names.drop_last(), name)
    }
}

/// Where the page image `name` of the archive held in `data` stands, or
/// why it cannot be found.
pub open spec fn entry_position(data: Seq<u8>, name: Seq<char>) -> Result<usize, ArchiveError> {
    match zip_entry_names(data) {
        None => Err(ArchiveError::Unreadable),
        Some(ns) => match image_position(ns, name) {
            None => Err(ArchiveError::ImageNotFound),
            Some(i) => Ok(i),
        },
    }
}

/// The position of the page image `name` among the entry names `names`.
fn find_image(names: &Vec<String>, name: &str) -> (r: Option<usize>)
    ensures
        r == image_position(views_of(names@), name@),
{
    let mut k = names.len();
    assert(views_of(names@).subrange(0, k as int) =~= views_of(names@));
    while k > 0
        invariant
            k <= names@.len(),
            image_position(views_of(names@), name@) == image_position(views_of(names@).subrange(0, k as int), name@),
        decreases k,
    {
        let ghost s = views_of(names@).subrange(0, k as int);
        assert(s.last() == names@[k - 1]@);
        if same_text(names[k - 1].as_str(), name) && is_image_entry_name(name) {
            return Some(k - 1);
        }
        assert(s.drop_last() =~= views_of(names@).subrange(0, k - 1));
        k -= 1;
    }
    None
}

/// The names in archive order of the entries of the archive held in `data`.
fn entry_names(data: &[u8]) -> (r: Result<Vec<String>, ArchiveError>)
    ensures
        match r {
            Ok(v) => zip_entry_names(data@) == Some(views_of(v@)),
            Err(e) => e == ArchiveError::Unreadable && zip_entry_names(data@) is None,
        },
{
    let n = match read_entry_count(data) {
        Some(n) => n,
        None => {
            return Err(ArchiveError::Unreadable);
        },
    };
    let mut names: Vec<String> = Vec::new();
    let mut i: usize = 0;
    while i < n
        invariant
            0 <= i <= n,
            zip_entry_count(data@) == Some(n),
            names@.len() == i,
            forall|k: int| 0 <= k < i ==> zip_entry_name(data@, k as usize) == Some(#[trigger] names@[k]@),
        decreases n - i,
    {
        match read_entry_name(data, i) {
            Some(name) => {
                names.push(name);
            },
            None => {
                assert(zip_entry_name(data@, i) is None);
                return Err(ArchiveError::Unreadable);
            },
        }
        i += 1;
    }
    assert forall|k: usize| k < n implies #[trigger] zip_entry_name(data@, k) is Some by {
        assert(zip_entry_name(data@, k as int as usize) == Some(names@[k as int]@));
    }
    assert(views_of(names@) =~= Seq::new(n as nat, |k: int| zip_entry_name(data@, k as usize)->0));
    Ok(names)
}

/// The page images of the archive held in `data`, in order, as `pages`
/// lists them: the image entries sorted stably in natural order of their
/// names.
pub open spec fn lists_pages(data: Seq<u8>, pages: Seq<(usize, String)>) -> bool {
    exists|v: Seq<String>|
        zip_entry_names(data) == Some(views_of(v)) && v.len() <= usize::MAX && #[trigger] is_stable_natural_sort(
            image_entries(v),
            pages,
        )
}

proof fn lemma_image_entries_elems(names: Seq<String>, j: int)
    requires
        0 <= j < image_entries(names).len(),
        names.len() <= usize::MAX,
    ensures
        image_entries(names)[j].0 < names.len(),
        names[image_entries(names)[j].0 as int] == image_entries(names)[j].1,
        is_image_entry(image_entries(names)[j].1@),
    decreases names.len(),
{
    let prev = image_entries(names.drop_last());
    if j < prev.len() {
        lemma_image_entries_elems(names.drop_last(), j);
        assert(names.drop_last()[prev[j].0 as int] == names[prev[j].0 as int]);
    }
}

proof fn lemma_image_position_found(ns: Seq<Seq<char>>, k: int)
    requires
        0 <= k < ns.len(),
        is_image_entry(ns[k]),
        ns.len() <= usize::MAX,
    ensures
        image_position(ns, ns[k]) matches Some(p) && p < ns.len() && ns[p as int] == ns[k],
    decreases ns.len(),
{
    if !(ns.last() == ns[k] && is_image_entry(ns[k])) {
        assert(k < ns.len() - 1);
        assert(ns.drop_last()[k] == ns[k]);
        lemma_image_position_found(ns.drop_last(), k);
        let p = image_position(ns.drop_last(), ns[k])->0;
        assert(ns.drop_last()[p as int] == ns[p as int]);
    }
}

/// Every page image that an archive lists can be read by its name: the
/// name leads to an entry of the archive with that name.
pub proof fn lemma_listed_page_readable(data: Seq<u8>, pages: Seq<(usize, String)>, i: int)
    requires
        lists_pages(data, pages),
        0 <= i < pages.len(),
    ensures
        entry_position(data, pages[i].1@) matches Ok(p) && zip_entry_names(data) matches Some(ns) && p < ns.len()
            && ns[p as int] == pages[i].1@,
        zip_entry_names(data) matches Some(ns) && pages[i].0 < ns.len() && ns[pages[i].0 as int] == pages[i].1@,
{
    let v = choose|v: Seq<String>|
        zip_entry_names(data) == Some(views_of(v)) && v.len() <= usize::MAX && #[trigger] is_stable_natural_sort(
            image_entries(v),
            pages,
        );
    let before = image_entries(v);
    let perm = choose|perm: Seq<int>|
        #[trigger] is_renumbering(before, pages, perm) && forall|a: int, b: int|
            0 <= a < b < pages.len() && natural_order(pages[a].natural_key(), pages[b].natural_key()) == 0
                ==> #[trigger] perm[a] < #[trigger] perm[b];
    let j = perm[i];
    assert(pages[i] == before[j]);
    lemma_image_entries_elems(v, j);
    let k = before[j].0 as int;
    let ns = views_of(v);
    assert(ns[k] == v[k]@);
    lemma_image_position_found(ns, k);
}

proof fn lemma_image_entries_views(v1: Seq<String>, v2: Seq<String>)
    requires
        views_of(v1) == views_of(v2),
    ensures
        image_entries(v1).len() == image_entries(v2).len(),
        forall|k: int|
            0 <= k < image_entries(v1).len() ==> (#[trigger] image_entries(v1)[k]).0 == image_entries(v2)[k].0
                && image_entries(v1)[k].1@ == image_entries(v2)[k].1@,
    decreases v1.len(),
{
    assert(v1.len() == views_of(v1).len());
    assert(v2.len() == views_of(v2).len());
    if v1.len() > 0 {
        assert forall|k: int| 0 <= k < v1.len() - 1 implies #[trigger] v1.drop_last()[k]@ == v2.drop_last()[k]@ by {
            assert(views_of(v1)[k] == views_of(v2)[k]);
        }
        assert(views_of(v1.drop_last()) =~= views_of(v2.drop_last()));
        lemma_image_entries_views(v1.drop_last(), v2.drop_last());
        assert(v1.last()@ == views_of(v1)[v1.len() - 1]);
        assert(v2.last()@ == views_of(v2)[v2.len() - 1]);
    }
}

proof fn lemma_image_position_found_at(ns: Seq<Seq<char>>, name: Seq<char>)
    requires
        ns.len() <= usize::MAX,
    ensures
        image_position(ns, name) matches Some(p) ==> p < ns.len() && ns[p as int] == name && is_image_entry(name),
    decreases ns.len(),
{
    if ns.len() > 0 && !(ns.last() == name && is_image_entry(name)) {
        lemma_image_position_found_at(ns.drop_last(), name);
        if let Some(p) = image_position(ns.drop_last(), name) {
            assert(ns.drop_last()[p as int] == ns[p as int]);
        }
    }
}

proof fn lemma_image_entries_complete(names: Seq<String>, k: int)
    requires
        0 <= k < names.len(),
        is_image_entry(names[k]@),
    ensures
        exists|j: int| 0 <= j < image_entries(names).len() && #[trigger] image_entries(names)[j] == (k as usize, names[k]),
    decreases names.len(),
{
    let prev = image_entries(names.drop_last());
    if k == names.len() - 1 {
        assert(image_entries(names)[prev.len() as int] == (k as usize, names[k]));
    } else {
        assert(names.drop_last()[k] == names[k]);
        lemma_image_entries_complete(names.drop_last(), k);
        let j = choose|j: int| 0 <= j < prev.len() && #[trigger] prev[j] == (k as usize, names[k]);
        assert(image_entries(names)[j] == prev[j]);
    }
}

/// A name is found in an archive exactly when it is among the names the
/// archive lists: a listed name leads to an entry of that name, and any
/// other name (a directory, an entry under `__MACOSX`, a file that is not
/// an image, or no entry at all) is not found.
pub proof fn lemma_found_iff_listed(data: Seq<u8>, pages: Seq<(usize, String)>, name: Seq<char>)
    requires
        lists_pages(data, pages),
    ensures
        page_names(pages).contains(name) <==> entry_position(data, name) is Ok,
        !page_names(pages).contains(name) ==> entry_position(data, name) == Err::<usize, ArchiveError>(
            ArchiveError::ImageNotFound,
        ),
{
    let v = choose|v: Seq<String>|
        zip_entry_names(data) == Some(views_of(v)) && v.len() <= usize::MAX && #[trigger] is_stable_natural_sort(
            image_entries(v),
            pages,
        );
    let ns = views_of(v);
    if page_names(pages).contains(name) {
        let i = choose|i: int| 0 <= i < page_names(pages).len() && page_names(pages)[i] == name;
        lemma_listed_page_readable(data, pages, i);
    }
    if entry_position(data, name) is Ok {
        let p = entry_position(data, name)->Ok_0;
        lemma_image_position_found_at(ns, name);
        assert(v[p as int]@ == name);
        lemma_image_entries_complete(v, p as int);
        let before = image_entries(v);
        let j = choose|j: int| 0 <= j < before.len() && #[trigger] before[j] == (p, v[p as int]);
        let perm = choose|perm: Seq<int>|
            #[trigger] is_renumbering(before, pages, perm) && forall|a: int, b: int|
                0 <= a < b < pages.len() && natural_order(pages[a].natural_key(), pages[b].natural_key()) == 0
                    ==> #[trigger] perm[a] < #[trigger] perm[b];
        lemma_renumbering_onto(before, pages, perm, j);
        let i = choose|i: int| 0 <= i < perm.len() && perm[i] == j;
        assert(pages[i] == before[j]);
        assert(page_names(pages)[i] == name);
    }
}

/// An archive's pages are listed one way only: any two listings of the
/// archive held in `data` give the same names in the same order, from the
/// same entries.
pub proof fn lemma_listing_unique(data: Seq<u8>, p1: Seq<(usize, String)>, p2: Seq<(usize, String)>)
    requires
        lists_pages(data, p1),
        lists_pages(data, p2),
    ensures
        p1.len() == p2.len(),
        forall|i: int| 0 <= i < p1.len() ==> (#[trigger] p1[i]).0 == p2[i].0 && p1[i].1@ == p2[i].1@,
        page_names(p1) == page_names(p2),
{
    let v1 = choose|v: Seq<String>|
        zip_entry_names(data) == Some(views_of(v)) && v.len() <= usize::MAX && #[trigger] is_stable_natural_sort(
            image_entries(v),
            p1,
        );
    let v2 = choose|v: Seq<String>|
        zip_entry_names(data) == Some(views_of(v)) && v.len() <= usize::MAX && #[trigger] is_stable_natural_sort(
            image_entries(v),
            p2,
        );
    lemma_image_entries_views(v1, v2);
    let e1 = image_entries(v1);
    let e2 = image_entries(v2);
    assert forall|k: int| 0 <= k < e1.len() implies #[trigger] e2[k].natural_key() == e1[k].natural_key() by {
        assert(e1[k].1@ == e2[k].1@);
    }
    lemma_stable_sorts_agree(e1, e2, p1, p2);
    let perm = choose|perm: Seq<int>|
        perm.len() == p1.len() && forall|i: int|
            0 <= i < p1.len() ==> 0 <= #[trigger] perm[i] < e1.len() && p1[i] == e1[perm[i]] && p2[i] == e2[perm[i]];
    assert forall|i: int| 0 <= i < p1.len() implies (#[trigger] p1[i]).0 == p2[i].0 && p1[i].1@ == p2[i].1@ by {
        assert(0 <= perm[i] < e1.len());
        assert(e1[perm[i]].0 == e2[perm[i]].0);
    }
    assert(page_names(p1) =~= page_names(p2));
}

/// No two entries of the archive held in `data` have the same name.
pub open spec fn distinct_entry_names(data: Seq<u8>) -> bool {
    zip_entry_names(data) matches Some(ns) && forall|a: int, b: int|
        0 <= a < b < ns.len() ==> #[trigger] ns[a] != #[trigger] ns[b]
}

/// In an archive whose entry names are distinct, a listed page's name
/// leads back to the very entry it was listed from.
pub proof fn lemma_listed_position(data: Seq<u8>, pages: Seq<(usize, String)>, i: int)
    requires
        lists_pages(data, pages),
        distinct_entry_names(data),
        0 <= i < pages.len(),
    ensures
        entry_position(data, pages[i].1@) == Ok::<usize, ArchiveError>(pages[i].0),
{
    lemma_listed_page_readable(data, pages, i);
    let ns = zip_entry_names(data)->0;
    let p = entry_position(data, pages[i].1@)->Ok_0;
    if p != pages[i].0 {
        if p < pages[i].0 {
            assert(ns[p as int] != ns[pages[i].0 as int]);
        } else {
            assert(ns[pages[i].0 as int] != ns[p as int]);
        }
    }
}

/// The first page image that `get_first_image` reads is the one that
/// `get_image_data` reads for the first name that `get_images` lists,
/// when the archive's entry names are distinct: whichever listings the two
/// rest on, the first listed name leads to the first listed entry.
pub proof fn lemma_first_image_is_first_listed(
    data: Seq<u8>,
    listed: Seq<(usize, String)>,
    pages: Seq<(usize, String)>,
)
    requires
        lists_pages(data, listed),
        lists_pages(data, pages),
        distinct_entry_names(data),
        pages.len() > 0,
    ensures
        listed.len() == pages.len(),
        entry_position(data, page_names(listed)[0]) == Ok::<usize, ArchiveError>(pages[0].0),
{
    lemma_listing_unique(data, listed, pages);
    lemma_listed_position(data, pages, 0);
    assert(page_names(listed)[0] == listed[0].1@);
}

/// The page image names of `pages`.
pub open spec fn page_names(pages: Seq<(usize, String)>) -> Seq<Seq<char>> {
    pages.map_values(|e: (usize, String)| e.1@)
}

/// Reads the entry names of the archive held in `data` and indexes its
/// page images.
pub fn index_archive(data: &[u8]) -> (r: Result<IndexMap, ArchiveError>)
    ensures
        match r {
            Ok(idx) => lists_pages(data@, idx.entries@),
            Err(e) => e == ArchiveError::Unreadable && zip_entry_names(data@) is None,
        },
{
    let names = entry_names(data)?;
    let ghost v = names@;
    let count = names.len();
    assert(v.len() == count);
    let idx = IndexMap::build(names);
    assert(is_stable_natural_sort(image_entries(v), idx.entries@));
    Ok(idx)
}

/// Reads the page image `image_name` with the index `idx` of the archive
/// held in `data`.
pub fn read_image_direct(idx: &IndexMap, data: &[u8], image_name: &str) -> (r: Result<Vec<u8>, ArchiveError>)
    ensures
        match index_lookup(idx.entries@, image_name@) {
            None => r == Err::<Vec<u8>, ArchiveError>(ArchiveError::ImageNotFound),
            Some(i) => match zip_entry_data(data@, i) {
                None => r == Err::<Vec<u8>, ArchiveError>(ArchiveError::Unreadable),
                Some(b) => r matches Ok(v) && v@ == b,
            },
        },
{
    match idx.lookup_index(image_name) {
        None => Err(ArchiveError::ImageNotFound),
        Some(i) => match read_entry(data, i) {
            None => Err(ArchiveError::Unreadable),
            Some(b) => Ok(b),
        },
    }
}

/// A chapter archive, named by its path.  Its pages are read from the
/// archive's bytes, which the caller reads from the file.
pub struct Archive {
    path: String,
}

impl Archive {
    pub closed spec fn path_spec(&self) -> Seq<char> {
        self.path@
    }

    /// The archive at `path`; nothing is read until its pages are asked for.
    pub fn new(path: &str) -> (r: Result<Archive, ArchiveError>)
        ensures
            r matches Ok(a) && a.path_spec() == path@,
    {
        Ok(Archive { path: copy_str(path) })
    }

    /// The archive's path.
    pub fn path(&self) -> (r: &str)
        ensures
            r@ == self.path_spec(),
    {
        self.path.as_str()
    }

    /// The names of the page images of the archive held in `data`, in
    /// natural order.
    pub fn get_images(&self, data: &[u8]) -> (r: Result<Vec<String>, ArchiveError>)
        ensures
            match r {
                Ok(names) => exists|pages: Seq<(usize, String)>|
                    lists_pages(data@, pages) && views_of(names@) == #[trigger] page_names(pages),
                Err(e) => e == ArchiveError::Unreadable && zip_entry_names(data@) is None,
            },
    {
        let idx = index_archive(data)?;
        let names = idx.image_names();
        assert(views_of(names@) =~= page_names(idx.entries@));
        Ok(names)
    }

    /// The contents of the page image `image_name` of the archive held in
    /// `data`.
    pub fn get_image_data(&self, data: &[u8], image_name: &str) -> (r: Result<Vec<u8>, ArchiveError>)
        ensures
            match entry_position(data@, image_name@) {
                Err(e) => r == Err::<Vec<u8>, ArchiveError>(e),
                Ok(i) => match zip_entry_data(data@, i) {
                    None => r == Err::<Vec<u8>, ArchiveError>(ArchiveError::Unreadable),
                    Some(b) => r matches Ok(v) && v@ == b,
                },
            },
    {
        let names = entry_names(data)?;
        match find_image(&names, image_name) {
            None => Err(ArchiveError::ImageNotFound),
            Some(i) => match read_entry(data, i) {
                None => Err(ArchiveError::Unreadable),
                Some(b) => Ok(b),
            },
        }
    }

    /// The contents of the first page image, in natural order, of the
    /// archive held in `data`.
    pub fn get_first_image(&self, data: &[u8]) -> (r: Result<Vec<u8>, ArchiveError>)
        ensures
            zip_entry_names(data@) is None ==> r == Err::<Vec<u8>, ArchiveError>(ArchiveError::Unreadable),
            zip_entry_names(data@) is Some ==> exists|pages: Seq<(usize, String)>|
                #[trigger] lists_pages(data@, pages) && if pages.len() == 0 {
                    r == Err::<Vec<u8>, ArchiveError>(ArchiveError::NoImages)
                } else {
                    match zip_entry_data(data@, pages[0].0) {
                        None => r == Err::<Vec<u8>, ArchiveError>(ArchiveError::Unreadable),
                        Some(b) => r matches Ok(v) && v@ == b,
                    }
                },
    {
        let idx = index_archive(data)?;
        assert(lists_pages(data@, idx.entries@));
        match idx.first_zip_index() {
            None => Err(ArchiveError::NoImages),
            Some(i) => match read_entry(data, i) {
                None => Err(ArchiveError::Unreadable),
                Some(b) => Ok(b),
            },
        }
    }

    /// At most `limit` bytes from the start of the page image `image_name`
    /// of the archive held in `data`: what one read gives.
    pub fn get_image_data_limited(&self, data: &[u8], image_name: &str, limit: usize) -> (r: Result<
        Vec<u8>,
        ArchiveError,
    >)
        ensures
            match entry_position(data@, image_name@) {
                Err(e) => r == Err::<Vec<u8>, ArchiveError>(e),
                Ok(i) => match zip_entry_head(data@, i, limit) {
                    None => r == Err::<Vec<u8>, ArchiveError>(ArchiveError::Unreadable),
                    Some(b) => r matches Ok(v) && v@ == b && b.len() <= limit,
                },
            },
            r matches Ok(v) ==> (entry_position(data@, image_name@) matches Ok(i) && (zip_entry_data(data@, i) matches Some(
                full,
            ) ==> v@.len() <= full.len() && v@ == full.subrange(0, v@.len() as int))),
            (entry_position(data@, image_name@) matches Ok(i) && zip_entry_data(data@, i) is Some) ==> r is Ok,
    {
        let names = entry_names(data)?;
        match find_image(&names, image_name) {
            None => Err(ArchiveError::ImageNotFound),
            Some(i) => match read_entry_head(data, i, limit) {
                None => Err(ArchiveError::Unreadable),
                Some(b) => Ok(b),
            },
        }
    }

    /// The size of the page image `image_name` of the archive held in
    /// `data`, read from its first 8192 bytes.
    pub fn get_image_dimensions(&self, data: &[u8], image_name: &str) -> (r: Option<(u32, u32)>)
        ensures
            r == match entry_position(data@, image_name@) {
                Err(e) => None,
                Ok(i) => match zip_entry_head(data@, i, DIMENSION_HEADER_SIZE) {
                    None => None,
                    Some(b) => image_dimensions(b),
                },
            },
    {
        match self.get_image_data_limited(data, image_name, DIMENSION_HEADER_SIZE) {
            Ok(header) => decode_dimensions(header.as_slice()),
            Err(_) => None,
        }
    }
}

/// How many bytes of a page image are read to learn its size.
pub const DIMENSION_HEADER_SIZE: usize = 8192;

/// How many archives are kept open at a time.
pub const ARCHIVE_CACHE_CAPACITY: usize = 3;

/// The archives kept open, least recently used first.
pub struct ArchiveCache<V> {
    entries: Vec<(String, V)>,
}

impl<V> ArchiveCache<V> {
    /// The open archives' paths with their values, least recently used
    /// first.
    pub closed spec fn items(&self) -> Seq<(Seq<char>, V)> {
        self.entries@.map_values(|e: (String, V)| (e.0@, e.1))
    }

    /// At most three archives, no path twice.
    pub closed spec fn wf(&self) -> bool {
        &&& self.entries@.len() <= ARCHIVE_CACHE_CAPACITY
        &&& forall|a: int, b: int| 0 <= a < b < self.entries@.len() ==> self.entries@[a].0@ != self.entries@[b].0@
    }

    /// No archive open.
    pub fn new() -> (r: Self)
        ensures
            r.wf(),
            r.items().len() == 0,
    {
        ArchiveCache { entries: Vec::new() }
    }

    /// Position of the archive at `path`.
    fn find(&self, path: &str) -> (r: Option<usize>)
        ensures
            match r {
                Some(p) => p < self.items().len() && self.items()[p as int].0 == path@,
                None => forall|k: int| 0 <= k < self.items().len() ==> (#[trigger] self.items()[k]).0 != path@,
            },
    {
        let mut i: usize = 0;
        while i < self.entries.len()
            invariant
                0 <= i <= self.entries@.len(),
                forall|k: int| 0 <= k < i ==> (#[trigger] self.entries@[k]).0@ != path@,
            decreases self.entries@.len() - i,
        {
            if same_text(self.entries[i].0.as_str(), path) {
                return Some(i);
            }
            i += 1;
        }
        None
    }

    /// Whether the archive at `path` is open.
    pub fn contains(&self, path: &str) -> (r: bool)
        ensures
            r == (exists|k: int| 0 <= k < self.items().len() && (#[trigger] self.items()[k]).0 == path@),
    {
        self.find(path).is_some()
    }

    /// The open archive at `path`, marked as the most recently used.
    pub fn get(&mut self, path: &str) -> (r: Option<&V>)
        requires
            old(self).wf(),
        ensures
            final(self).wf(),
            match r {
                Some(v) => exists|p: int|
                    0 <= p < old(self).items().len() && old(self).items()[p].0 == path@ && old(self).items()[p].1
                        == *v && final(self).items() == old(self).items().remove(p).push(old(self).items()[p]),
                None => final(self).items() == old(self).items() && forall|k: int|
                    0 <= k < old(self).items().len() ==> (#[trigger] old(self).items()[k]).0 != path@,
            },
    {
        match self.find(path) {
            Some(p) => {
                let ghost e0 = self.entries@;
                let e = self.entries.remove(p);
                self.entries.push(e);
                proof {
                    let e1 = self.entries@;
                    assert(e1 =~= e0.remove(p as int).push(e0[p as int]));
                    assert(e1.map_values(|e: (String, V)| (e.0@, e.1)) =~= e0.map_values(|e: (String, V)| (e.0@, e.1)).remove(p as int).push(
                        e0.map_values(|e: (String, V)| (e.0@, e.1))[p as int],
                    ));
                    assert forall|a: int, b: int| 0 <= a < b < e1.len() implies e1[a].0@ != e1[b].0@ by {
                        let a0 = if a < p { a } else if a < e1.len() - 1 { a + 1 } else { p as int };
                        let b0 = if b < p { b } else if b < e1.len() - 1 { b + 1 } else { p as int };
                        assert(e1[a] == e0[a0] && e1[b] == e0[b0]);
                    }
                }
                let last = self.entries.len() - 1;
                Some(&self.entries[last].1)
            },
            None => None,
        }
    }

    /// Opens the archive at `path` as the most recently used; when three are
    /// already open, the least recently used is closed first.
    pub fn insert(&mut self, path: &str, value: V)
        requires
            old(self).wf(),
            forall|k: int| 0 <= k < old(self).items().len() ==> (#[trigger] old(self).items()[k]).0 != path@,
        ensures
            final(self).wf(),
            final(self).items().len() <= ARCHIVE_CACHE_CAPACITY,
            final(self).items() == (if old(self).items().len() >= ARCHIVE_CACHE_CAPACITY {
                old(self).items().drop_first()
            } else {
                old(self).items()
            }).push((path@, value)),
    {
        let ghost e0 = self.entries@;
        if self.entries.len() >= ARCHIVE_CACHE_CAPACITY {
            self.entries.remove(0);
        }
        let ghost e1 = self.entries@;
        self.entries.push((copy_str(path), value));
        proof {
            let e2 = self.entries@;
            let f = |e: (String, V)| (e.0@, e.1);
            if e0.len() >= ARCHIVE_CACHE_CAPACITY {
                assert(e1 =~= e0.drop_first());
                assert(e1.map_values(f) =~= e0.map_values(f).drop_first());
            }
            assert(e2.map_values(f) =~= e1.map_values(f).push((path@, value)));
            assert forall|a: int, b: int| 0 <= a < b < e2.len() implies e2[a].0@ != e2[b].0@ by {
                if e0.len() >= ARCHIVE_CACHE_CAPACITY {
                    if b < e2.len() - 1 {
                        assert(e2[a] == e0[a + 1] && e2[b] == e0[b + 1]);
                    } else {
                        assert(e2[a] == e0[a + 1]);
                        assert(old(self).items()[a + 1].0 != path@);
                    }
                } else {
                    if b < e2.len() - 1 {
                        assert(e2[a] == e0[a] && e2[b] == e0[b]);
                    } else {
                        assert(e2[a] == e0[a]);
                        assert(old(self).items()[a].0 != path@);
                    }
                }
            }
        }
    }

    /// Closes every archive.
    pub fn clear(&mut self)
        ensures
            final(self).wf(),
            final(self).items().len() == 0,
    {
        self.entries.clear();
    }
}

/// Closes every open archive of `cache`.
pub fn clear_archive_cache<V>(cache: &mut ArchiveCache<V>)
    ensures
        final(cache).wf(),
        final(cache).items().len() == 0,
{
    cache.clear();
}

} // verus!
