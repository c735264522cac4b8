use vstd::prelude::*;
use crate::archive::{Archive, ArchiveError, lists_pages, zip_entry_data, zip_entry_names};
use crate::text::{chars_of, lowercase, to_lowercase};

verus! {

/// `cover.` in lowercase.
pub open spec fn cover_prefix() -> Seq<char> {
    seq!['c', 'o', 'v', 'e', 'r', '.']
}

/// Whether a file named `name` is a title's cover image: its name, in
/// lowercase, starts with `cover.`.
pub open spec fn is_cover_name(name: Seq<char>) -> bool {
    let l = lowercase(name);
    l.len() >= 6 && l.subrange(0, 6) == cover_prefix()
}

/// Whether the file named `file_name`, beside a title's archives, is the
/// title's cover image.
pub fn is_title_cover_name(file_name: &str) -> (r: bool)
    ensures
        r == is_cover_name(file_name@),
{
    let lower = to_lowercase(file_name);
    let v = chars_of(lower.as_str());
    if v.len() < 6 {
        return false;
    }
    let r = v[0] == 'c' && v[1] == 'o' && v[2] == 'v' && v[3] == 'e' && v[4] == 'r' && v[5] == '.';
    assert(r == (v@.subrange(0, 6) =~= cover_prefix()));
    r
}

/// The cover of a title: its cover image file when there is one
/// (`title_cover`, read beside the archive), else the first page of the
/// archive at `manga_path`, whose bytes are `archive_data`.  The flag tells
/// whether the cover came from the archive.
pub fn get_cover_data(title_cover: Option<Vec<u8>>, manga_path: &str, archive_data: &[u8]) -> (r: Option<(Vec<u8>, bool)>)
    ensures
        match title_cover {
            Some(c) => r matches Some((v, from_archive)) && v@ == c@ && !from_archive,
            None => match r {
                Some((v, from_archive)) => from_archive && exists|pages: Seq<(usize, String)>|
                    #[trigger] lists_pages(archive_data@, pages) && pages.len() > 0 && zip_entry_data(archive_data@, pages[0].0)
                        == Some(v@),
                None => zip_entry_names(archive_data@) is None || exists|pages: Seq<(usize, String)>|
                    #[trigger] lists_pages(archive_data@, pages) && (pages.len() == 0 || zip_entry_data(archive_data@, pages[0].0) is None),
            },
        },
{
    match title_cover {
        Some(c) => Some((c, false)),
        None => {
            let archive = match Archive::new(manga_path) {
                Ok(a) => a,
                Err(_) => return None,
            };
            match archive.get_first_image(archive_data) {
                Ok(data) => Some((data, true)),
                Err(_) => None,
            }
        },
    }
}

} // verus!
