use vstd::prelude::*;
use crate::paths::{file_name_of, file_stem, file_stem_of, joined_path, parent_path, path_file_name, path_join, path_parent};
use crate::text::{chars_of, copy_str, lowercase, push_char, same_text, string_from_chars, string_from_range, to_lowercase, views_of};

verus! {

/// The version of the sound map file format that is read.
pub const TITLE_SCHEMA: u32 = 4;

/// The most tracks a sound track keeps.
pub const MAX_TRACKS: usize = 8;

/// How a title's pages are laid out for its effects.
#[derive(Clone, Copy, Debug, PartialEq, Eq, Structural)]
pub enum TitleMode {
    Manga,
    Webtoon,
}

impl Default for TitleMode {
    fn default() -> (r: Self)
        ensures
            r == TitleMode::Manga,
    {
        TitleMode::Manga
    }
}

/// A sound map file of schema `schema` is read only when it is the
/// current one.
pub fn schema_supported(schema: u32) -> (r: bool)
    ensures
        r == (schema == TITLE_SCHEMA),
{
    schema == TITLE_SCHEMA
}

/// `<stem>.spfx`.
pub open spec fn spfx_name(stem: Seq<char>) -> Seq<char> {
    stem + seq!['.', 's', 'p', 'f', 'x']
}

/// Where the sound map of the title of the chapter at `chapter_path` is:
/// beside the title's directory, named after it, with the extension
/// `.spfx`.
pub open spec fn title_spfx_path_spec(chapter_path: Seq<char>) -> Seq<char> {
    let dir = match parent_path(chapter_path) {
        Some(d) => d,
        None => seq!['.'],
    };
    let stem = match file_stem_of(dir) {
        Some(s) => s,
        None => Seq::empty(),
    };
    joined_path(dir, spfx_name(stem))
}

/// The sound map file of the title of the chapter at `chapter_path`.
pub fn title_spfx_path_for(chapter_path: &str) -> (r: String)
    ensures
        r@ == title_spfx_path_spec(chapter_path@),
{
    let dir = match path_parent(chapter_path) {
        Some(d) => d,
        None => {
            let d = copy_str(".");
            proof {
                reveal_strlit(".");
            }
            assert(d@ =~= seq!['.']);
            d
        },
    };
    let mut name = match file_stem(dir.as_str()) {
        Some(s) => s,
        None => String::new(),
    };
    let ghost stem = name@;
    push_char(&mut name, '.');
    push_char(&mut name, 's');
    push_char(&mut name, 'p');
    push_char(&mut name, 'f');
    push_char(&mut name, 'x');
    assert(name@ =~= spfx_name(stem));
    path_join(dir.as_str(), name.as_str())
}

/// `s` with every backslash turned into a slash.
pub open spec fn slash_normalized(s: Seq<char>) -> Seq<char> {
    s.map_values(|c: char| if c == '\\' { '/' } else { c })
}

/// Whether the `/`-separated path `s` has a `..` component.
pub open spec fn has_parent_component(s: Seq<char>) -> bool {
    exists|k: int|
        0 <= k && k + 2 <= s.len() && #[trigger] s[k] == '.' && s[k + 1] == '.' && (k == 0 || s[k - 1] == '/') && (k
            + 2 == s.len() || s[k + 2] == '/')
}

/// Whether a relative path could lead out of the directory it is read in:
/// empty, absolute, or with a `..` component.
pub open spec fn leaves_directory(s: Seq<char>) -> bool {
    s.len() == 0 || s[0] == '/' || has_parent_component(s)
}

/// Whether `c` is an ASCII letter.
pub open spec fn is_ascii_letter(c: char) -> bool {
    ('a' <= c && c <= 'z') || ('A' <= c && c <= 'Z')
}

/// Whether `s` starts with a drive letter and a colon.
pub open spec fn has_drive_prefix(s: Seq<char>) -> bool {
    s.len() >= 2 && is_ascii_letter(s[0]) && s[1] == ':'
}

/// A sound file path of a sound map, made safe: slashes only, and empty
/// when it could lead out of the sound pack directory.
pub open spec fn sanitized_rel(s: Seq<char>) -> Seq<char> {
    let t = slash_normalized(s);
    if leaves_directory(t) || has_drive_prefix(t) {
        Seq::empty()
    } else {
        t
    }
}

/// Making a path safe twice is making it safe once: a safe path is kept
/// as it is.
pub proof fn lemma_sanitize_idempotent(s: Seq<char>)
    ensures
        sanitized_rel(sanitized_rel(s)) == sanitized_rel(s),
{
    let t = slash_normalized(s);
    let r = sanitized_rel(s);
    if r.len() == 0 {
        assert(slash_normalized(r) =~= r);
    } else {
        assert(r == t);
        assert forall|i: int| 0 <= i < t.len() implies t[i] != '\\' by {}
        assert(slash_normalized(t) =~= t);
    }
}

fn normalize_slashes(s: &str) -> (r: Vec<char>)
    ensures
        r@ == slash_normalized(s@),
{
    let v = chars_of(s);
    let mut out: Vec<char> = Vec::new();
    let mut i: usize = 0;
    while i < v.len()
        invariant
            0 <= i <= v@.len(),
            v@ == s@,
            out@ == slash_normalized(v@.subrange(0, i as int)),
        decreases v@.len() - i,
    {
        let c = v[i];
        if c == '\\' {
            out.push('/');
        } else {
            out.push(c);
        }
        assert(slash_normalized(v@.subrange(0, i + 1)) =~= slash_normalized(v@.subrange(0, i as int)).push(
            if c == '\\' { '/' } else { c },
        ));
        i += 1;
    }
    assert(v@.subrange(0, v@.len() as int) =~= v@);
    out
}

fn parent_component(v: &Vec<char>) -> (r: bool)
    ensures
        r == has_parent_component(v@),
{
    let mut k: usize = 0;
    while v.len() >= 2 && k <= v.len() - 2
        invariant
            k <= v@.len(),
            forall|j: int|
                0 <= j < k && j + 2 <= v@.len() ==> !(#[trigger] v@[j] == '.' && v@[j + 1] == '.' && (j == 0 || v@[j - 1]
                    == '/') && (j + 2 == v@.len() || v@[j + 2] == '/')),
        decreases v@.len() - k,
    {
        if v[k] == '.' && v[k + 1] == '.' && (k == 0 || v[k - 1] == '/') && (k + 2 == v.len() || v[k + 2] == '/') {
            return true;
        }
        k += 1;
    }
    false
}

fn ascii_letter(c: char) -> (r: bool)
    ensures
        r == is_ascii_letter(c),
{
    ('a' <= c && c <= 'z') || ('A' <= c && c <= 'Z')
}

/// The sound file path `s` of a sound map, made safe.
pub fn sanitize_rel(s: &str) -> (r: String)
    ensures
        r@ == sanitized_rel(s@),
{
    let t = normalize_slashes(s);
    let bad = t.len() == 0 || t[0] == '/' || parent_component(&t) || (t.len() >= 2 && ascii_letter(t[0]) && t[1]
        == ':');
    if bad {
        String::new()
    } else {
        string_from_chars(&t)
    }
}

/// Sound file paths made safe, the empty ones dropped, at most `MAX_TRACKS`
/// kept.
pub open spec fn sanitized_tracks(tracks: Seq<Seq<char>>) -> Seq<Seq<char>> {
    let kept = kept_tracks(tracks);
    if kept.len() > MAX_TRACKS {
        kept.subrange(0, MAX_TRACKS as int)
    } else {
        kept
    }
}

/// The non-empty safe forms of `tracks`, in order.
pub open spec fn kept_tracks(tracks: Seq<Seq<char>>) -> Seq<Seq<char>>
    decreases tracks.len(),
{
    if tracks.len() == 0 {
        Seq::empty()
    } else {
        let prev = kept_tracks(tracks.drop_last());
        let t = sanitized_rel(tracks.last());
        if t.len() == 0 {
            prev
        } else {
            prev.push(t)
        }
    }
}

/// The tracks of a sound track, made safe as the sound map is read.
pub fn sanitize_tracks(tracks: &Vec<String>) -> (r: Vec<String>)
    ensures
        views_of(r@) == sanitized_tracks(views_of(tracks@)),
{
    let ghost all = views_of(tracks@);
    let mut out: Vec<String> = Vec::new();
    let mut i: usize = 0;
    while i < tracks.len()
        invariant
            0 <= i <= tracks@.len(),
            all == views_of(tracks@),
            views_of(out@) == kept_tracks(all.subrange(0, i as int)),
        decreases tracks@.len() - i,
    {
        let ghost sub = all.subrange(0, i + 1);
        assert(sub.drop_last() =~= all.subrange(0, i as int));
        assert(sub.last() == tracks@[i as int]@);
        let t = sanitize_rel(tracks[i].as_str());
        if !t.as_str().is_empty() {
            let ghost before = out@;
            let ghost tv = t@;
            out.push(t);
            assert(views_of(out@) =~= views_of(before).push(tv));
        }
        i += 1;
    }
    assert(all.subrange(0, all.len() as int) =~= all);
    if out.len() > MAX_TRACKS {
        let ghost before = out@;
        out.truncate(MAX_TRACKS);
        assert(views_of(out@) =~= views_of(before).subrange(0, MAX_TRACKS as int));
    }
    out
}

/// The effect kinds a sound map may name.
pub open spec fn is_known_fx(kind: Seq<char>) -> bool {
    kind == seq!['r', 'a', 'i', 'n'] || kind == seq!['f', 'l', 'a', 's', 'h'] || kind == seq![
        'f',
        'l',
        'i',
        'c',
        'k',
        'e',
        'r',
    ] || kind == seq!['s', 'h', 'a', 'k', 'e'] || kind == seq!['w', 'a', 'v', 'e'] || kind == seq!['w', 'i', 'n', 'd']
        || kind == seq!['s', 'h', 'i', 'n', 'e'] || kind == seq!['s', 'w', 'a', 'y'] || kind == seq![
        's',
        't',
        'a',
        'r',
        's',
    ]
}

/// Whether an effect cue of kind `kind` is kept.
pub fn known_fx(kind: &str) -> (r: bool)
    ensures
        r == is_known_fx(kind@),
{
    proof {
        reveal_strlit("rain");
        reveal_strlit("flash");
        reveal_strlit("flicker");
        reveal_strlit("shake");
        reveal_strlit("wave");
        reveal_strlit("wind");
        reveal_strlit("shine");
        reveal_strlit("sway");
        reveal_strlit("stars");
    }
    let r = same_text(kind, "rain") || same_text(kind, "flash") || same_text(kind, "flicker") || same_text(
        kind,
        "shake",
    ) || same_text(kind, "wave") || same_text(kind, "wind") || same_text(kind, "shine") || same_text(kind, "sway")
        || same_text(kind, "stars");
    assert("rain"@ =~= seq!['r', 'a', 'i', 'n']);
    assert("flash"@ =~= seq!['f', 'l', 'a', 's', 'h']);
    assert("flicker"@ =~= seq!['f', 'l', 'i', 'c', 'k', 'e', 'r']);
    assert("shake"@ =~= seq!['s', 'h', 'a', 'k', 'e']);
    assert("wave"@ =~= seq!['w', 'a', 'v', 'e']);
    assert("wind"@ =~= seq!['w', 'i', 'n', 'd']);
    assert("shine"@ =~= seq!['s', 'h', 'i', 'n', 'e']);
    assert("sway"@ =~= seq!['s', 'w', 'a', 'y']);
    assert("stars"@ =~= seq!['s', 't', 'a', 'r', 's']);
    r
}

/// Whether an effect cue of kind `kind` is the older form of a vertical
/// wave (`wave2`), read as a wave along axis 1.
pub fn is_legacy_vertical_wave(kind: &str) -> (r: bool)
    ensures
        r == (kind@ == seq!['w', 'a', 'v', 'e', '2']),
{
    proof {
        reveal_strlit("wave2");
    }
    assert("wave2"@ =~= seq!['w', 'a', 'v', 'e', '2']);
    same_text(kind, "wave2")
}

/// A grid dimension of a cut, kept between 1 and 16.
pub fn clamp_grid_dimension(n: usize) -> (r: usize)
    ensures
        r == if n < 1 {
            1
        } else if n > 16 {
            16
        } else {
            n
        },
{
    if n < 1 {
        1
    } else if n > 16 {
        16
    } else {
        n
    }
}

/// The anchor flags of a cut's grid, one per grid point: the flags read,
/// cut or padded with `false` to the number of points.
pub fn fit_anchored(anchored: &Vec<bool>, points: usize) -> (r: Vec<bool>)
    ensures
        r@.len() == points,
        forall|i: int| 0 <= i < points ==> #[trigger] r@[i] == (i < anchored@.len() && anchored@[i]),
{
    let mut r: Vec<bool> = Vec::new();
    let mut i: usize = 0;
    while i < points
        invariant
            0 <= i <= points,
            r@.len() == i,
            forall|k: int| 0 <= k < i ==> #[trigger] r@[k] == (k < anchored@.len() && anchored@[k]),
        decreases points - i,
    {
        if i < anchored.len() {
            r.push(anchored[i]);
        } else {
            r.push(false);
        }
        i += 1;
    }
    r
}

/// Whether a split of a cut's grid is kept: its three points exist and
/// the edge point differs from the other two.
pub open spec fn split_valid(s: [usize; 3], n: usize) -> bool {
    s[0] < n && s[1] < n && s[2] < n && s[0] != s[1] && s[0] != s[2]
}

/// The splits of a cut's grid of `n` points that are kept, in order.
pub open spec fn valid_splits(splits: Seq<[usize; 3]>, n: usize) -> Seq<[usize; 3]>
    decreases splits.len(),
{
    if splits.len() == 0 {
        Seq::empty()
    } else if split_valid(splits.last(), n) {
        valid_splits(splits.drop_last(), n).push(splits.last())
    } else {
        valid_splits(splits.drop_last(), n)
    }
}

/// Keeps the splits of a cut's grid of `n` points that are valid.
pub fn retain_valid_splits(splits: &Vec<[usize; 3]>, n: usize) -> (r: Vec<[usize; 3]>)
    ensures
        r@ == valid_splits(splits@, n),
{
    let mut r: Vec<[usize; 3]> = Vec::new();
    let mut i: usize = 0;
    while i < splits.len()
        invariant
            0 <= i <= splits@.len(),
            r@ == valid_splits(splits@.subrange(0, i as int), n),
        decreases splits@.len() - i,
    {
        assert(splits@.subrange(0, i + 1).drop_last() =~= splits@.subrange(0, i as int));
        let s = splits[i];
        if s[0] < n && s[1] < n && s[2] < n && s[0] != s[1] && s[0] != s[2] {
            r.push(s);
        }
        i += 1;
    }
    assert(splits@.subrange(0, splits@.len() as int) =~= splits@);
    r
}

/// The cut an effect cue names stays only while that cut exists.
pub fn valid_cut_index(cut_idx: Option<usize>, cuts: usize) -> (r: Option<usize>)
    ensures
        r == match cut_idx {
            Some(c) => if c < cuts {
                Some(c)
            } else {
                None
            },
            None => None,
        },
{
    match cut_idx {
        Some(c) => if c < cuts {
            Some(c)
        } else {
            None
        },
        None => None,
    }
}

/// The frame an effect cue names stays only when that frame exists and is
/// enabled.
pub fn valid_frame_index(frame: Option<usize>, frames_enabled: &Vec<bool>) -> (r: Option<usize>)
    ensures
        r == match frame {
            Some(f) => if f < frames_enabled@.len() && frames_enabled@[f as int] {
                Some(f)
            } else {
                None
            },
            None => None,
        },
{
    match frame {
        Some(f) => if f < frames_enabled.len() && frames_enabled[f] {
            Some(f)
        } else {
            None
        },
        None => None,
    }
}

/// Default number of grid columns of a cut.
pub fn default_grid_cols() -> (r: usize)
    ensures
        r == 3,
{
    3
}

/// Default number of grid rows of a cut.
pub fn default_grid_rows() -> (r: usize)
    ensures
        r == 3,
{
    3
}

/// Default anchor flags of a cut's 3 by 3 grid: the top row is anchored.
pub fn default_grid_anchored() -> (r: Vec<bool>)
    ensures
        r@ == seq![true, true, true, false, false, false, false, false, false],
{
    let r = vec![true, true, true, false, false, false, false, false, false];
    assert(r@ =~= seq![true, true, true, false, false, false, false, false, false]);
    r
}

/// Default mesh detail of a cut.
pub fn default_mesh_detail() -> (r: u8)
    ensures
        r == 64,
{
    64
}

/// Default of the flags that are on unless the file says otherwise.
pub fn default_true() -> (r: bool)
    ensures
        r,
{
    true
}

/// Whether a flag is on (a flag that is on is not written out).
pub fn is_true(v: &bool) -> (r: bool)
    ensures
        r == *v,
{
    *v
}

/// What the resolver of sound file paths knows: the sound pack directory
/// set in the settings (else a default one is used), and the index of the
/// sound files found in the directory, once it was walked.
pub struct SoundResolver {
    dir: Option<String>,
    index: Option<Vec<String>>,
}

/// A sound file path of a sound map checked for use: slashes only, and
/// `None` when it is empty, absolute or has a `..` component.
pub open spec fn checked_rel_spec(rel: Seq<char>) -> Option<Seq<char>> {
    let t = slash_normalized(rel);
    if leaves_directory(t) {
        None
    } else {
        Some(t)
    }
}

/// The last `/`-separated component of `s`.
pub open spec fn last_component(s: Seq<char>) -> Seq<char>
    decreases s.len(),
{
    if s.len() == 0 {
        s
    } else if s.last() == '/' {
        Seq::empty()
    } else {
        last_component(s.drop_last()).push(s.last())
    }
}

/// Whether the path `p` has a file name (as `Path::file_name` gives it)
/// that is `name` in lowercase.
pub open spec fn file_named(p: Seq<char>, name: Seq<char>) -> bool {
    match file_name_of(p) {
        Some(n) => lowercase(n) == name,
        None => false,
    }
}

/// The first of the indexed sound files whose file name, in lowercase, is
/// `name`.
pub open spec fn first_named(index: Seq<Seq<char>>, name: Seq<char>) -> Option<Seq<char>>
    decreases index.len(),
{
    if index.len() == 0 {
        None
    } else if file_named(index[0], name) {
        Some(index[0])
    } else {
        first_named(index.drop_first(), name)
    }
}

/// The sound file path checked for use.
pub fn checked_rel(rel: &str) -> (r: Option<Vec<char>>)
    ensures
        match r {
            Some(t) => checked_rel_spec(rel@) == Some(t@),
            None => checked_rel_spec(rel@) is None,
        },
{
    let t = normalize_slashes(rel);
    if t.len() == 0 || t[0] == '/' || parent_component(&t) {
        None
    } else {
        Some(t)
    }
}

fn last_component_of(v: &Vec<char>) -> (r: String)
    ensures
        r@ == last_component(v@),
{
    let mut k = v.len();
    assert(v@.subrange(0, k as int) =~= v@);
    while k > 0 && v[k - 1] != '/'
        invariant
            k <= v@.len(),
            last_component(v@) == last_component(v@.subrange(0, k as int)) + v@.subrange(k as int, v@.len() as int),
        decreases k,
    {
        proof {
            let s = v@.subrange(0, k as int);
            assert(s.drop_last() =~= v@.subrange(0, k - 1));
            assert(v@.subrange(k - 1, v@.len() as int) =~= seq![s.last()] + v@.subrange(k as int, v@.len() as int));
            assert(last_component(s.drop_last()).push(s.last()) + v@.subrange(k as int, v@.len() as int)
                =~= last_component(s.drop_last()) + v@.subrange(k - 1, v@.len() as int));
        }
        k -= 1;
    }
    proof {
        if k == 0 {
            assert(v@.subrange(0, 0) =~= Seq::<char>::empty());
        }
        assert(last_component(v@.subrange(0, k as int)) =~= Seq::<char>::empty());
        assert(last_component(v@) =~= v@.subrange(k as int, v@.len() as int));
    }
    string_from_range(v, k, v.len())
}

impl SoundResolver {
    /// The sound pack directory set, if any.
    pub closed spec fn dir_setting(&self) -> Option<Seq<char>> {
        match self.dir {
            Some(d) => Some(d@),
            None => None,
        }
    }

    /// The sound files found, once the directory was walked.
    pub closed spec fn index_spec(&self) -> Option<Seq<Seq<char>>> {
        match self.index {
            Some(v) => Some(views_of(v@)),
            None => None,
        }
    }

    /// No directory set, nothing indexed.
    pub fn new() -> (r: Self)
        ensures
            r.dir_setting() is None,
            r.index_spec() is None,
    {
        SoundResolver { dir: None, index: None }
    }

    /// Uses the sound pack directory `path`; its files are indexed again.
    pub fn set_dir(&mut self, path: String)
        ensures
            final(self).dir_setting() == Some(path@),
            final(self).index_spec() is None,
    {
        self.dir = Some(path);
        self.index = None;
    }

    /// Goes back to the default sound pack directory; its files are
    /// indexed again.
    pub fn reset_dir(&mut self)
        ensures
            final(self).dir_setting() is None,
            final(self).index_spec() is None,
    {
        self.dir = None;
        self.index = None;
    }

    /// The sound pack directory set, or `None` for the default one.
    pub fn dir(&self) -> (r: Option<String>)
        ensures
            match r {
                Some(d) => self.dir_setting() == Some(d@),
                None => self.dir_setting() is None,
            },
    {
        match &self.dir {
            Some(d) => Some(copy_str(d.as_str())),
            None => None,
        }
    }

    /// Whether the directory still has to be walked before a path is
    /// resolved.
    pub fn needs_index(&self) -> (r: bool)
        ensures
            r == self.index_spec() is None,
    {
        self.index.is_none()
    }

    /// Records the sound files found in the directory, sorted.
    pub fn set_index(&mut self, files: Vec<String>)
        ensures
            final(self).index_spec() == Some(views_of(files@)),
            final(self).dir_setting() == old(self).dir_setting(),
    {
        self.index = Some(files);
    }

    /// The first indexed sound file named, in any letter case, as the last
    /// component of `rel`.
    fn find_named(&self, rel: &Vec<char>) -> (r: Option<String>)
        ensures
            match r {
                Some(p) => self.index_spec() matches Some(ix) && first_named(ix, lowercase(last_component(rel@)))
                    == Some(p@),
                None => match self.index_spec() {
                    Some(ix) => first_named(ix, lowercase(last_component(rel@))) is None,
                    None => true,
                },
            },
    {
        let last = last_component_of(rel);
        let name = to_lowercase(last.as_str());
        match &self.index {
            None => None,
            Some(files) => {
                let ghost ix = views_of(files@);
                assert(self.index_spec() == Some(ix));
                assert(ix.skip(0) =~= ix);
                let mut i: usize = 0;
                while i < files.len()
                    invariant
                        0 <= i <= files@.len(),
                        ix == views_of(files@),
                        self.index_spec() == Some(ix),
                        name@ == lowercase(last_component(rel@)),
                        first_named(ix, name@) == first_named(ix.skip(i as int), name@),
                    decreases files@.len() - i,
                {
                    let ghost rest = ix.skip(i as int);
                    assert(rest[0] == files@[i as int]@);
                    assert(rest.drop_first() =~= ix.skip(i + 1));
                    let matches = match path_file_name(files[i].as_str()) {
                        Some(n) => {
                            let lower = to_lowercase(n.as_str());
                            same_text(lower.as_str(), name.as_str())
                        },
                        None => false,
                    };
                    if matches {
                        assert(file_named(rest[0], name@));
                        assert(first_named(rest, name@) == Some(rest[0]));
                        assert(self.index_spec() == Some(ix));
                        return Some(copy_str(files[i].as_str()));
                    }
                    i += 1;
                }
                assert(ix.skip(files@.len() as int).len() == 0);
                assert(first_named(ix.skip(files@.len() as int), name@) is None);
                assert(self.index_spec() == Some(ix));
                None
            },
        }
    }

    /// Resolves the sound file path `rel` of a sound map, in the sound pack
    /// directory `dir` (the one set, or the default): the file at that
    /// path when `exact_is_file` says it is one, else the first indexed
    /// file with the same file name in any letter case; `None` when `rel`
    /// is empty, absolute or has a `..` component.
    pub fn resolve(&self, rel: &str, dir: &str, exact_is_file: bool) -> (r: Option<String>)
        ensures
            match checked_rel_spec(rel@) {
                None => r is None,
                Some(t) => if exact_is_file {
                    r matches Some(p) && p@ == joined_path(dir@, t)
                } else {
                    match self.index_spec() {
                        Some(ix) => match first_named(ix, lowercase(last_component(t))) {
                            Some(f) => r matches Some(p) && p@ == f,
                            None => r is None,
                        },
                        None => r is None,
                    }
                },
            },
    {
        match checked_rel(rel) {
            None => None,
            Some(t) => {
                if exact_is_file {
                    let ts = string_from_chars(&t);
                    Some(path_join(dir, ts.as_str()))
                } else {
                    self.find_named(&t)
                }
            },
        }
    }

    /// The path to try first for `rel` in the sound pack directory `dir`:
    /// `None` when `rel` is not usable.
    pub fn exact_candidate(rel: &str, dir: &str) -> (r: Option<String>)
        ensures
            match checked_rel_spec(rel@) {
                None => r is None,
                Some(t) => r matches Some(p) && p@ == joined_path(dir@, t),
            },
    {
        match checked_rel(rel) {
            None => None,
            Some(t) => {
                let ts = string_from_chars(&t);
                Some(path_join(dir, ts.as_str()))
            },
        }
    }
}

/// The most sound actions a page keeps.
pub const MAX_ACTIONS: usize = 24;

/// The most effect cues a page keeps.
pub const MAX_FX: usize = 16;

/// The most frames a page keeps.
pub const MAX_FRAMES: usize = 64;

/// The most cuts a page keeps.
pub const MAX_CUTS: usize = 16;

/// A one-shot sound of a page: its position among the page's actions as
/// read, and its sound file.
pub struct SoundAction {
    pub at: usize,
    pub file: String,
}

/// An effect cue of a page, as far as the repairs read it: its position
/// as read, its kind, its axis, its wind bands, its frequency rounded to a
/// whole number, and the frame and cut it names.
pub struct FxCue {
    pub at: usize,
    pub kind: String,
    pub axis: Option<u8>,
    pub bands: Option<u8>,
    pub hz: Option<i64>,
    pub frame: Option<usize>,
    pub cut_idx: Option<usize>,
}

/// A frame of a page: its position as read, whether it is enabled, and
/// the tracks of its playlist, if it has one.
pub struct Frame {
    pub at: usize,
    pub enabled: bool,
    pub playlist: Option<Vec<String>>,
}

/// A cut of a page: its position as read, the number of corners of its
/// outline, its grid size, the number of its grid points, their anchor
/// flags, and the splits of its grid.
pub struct Cut {
    pub at: usize,
    pub poly_len: usize,
    pub grid_cols: usize,
    pub grid_rows: usize,
    pub grid_points: usize,
    pub grid_anchored: Vec<bool>,
    pub grid_splits: Vec<[usize; 3]>,
}

/// The sounds and effects of one page: the tracks of its background music
/// and of its ambience, its sound actions, effect cues, frames and cuts.
pub struct PageMap {
    pub bgm: Option<Vec<String>>,
    pub ambient: Option<Vec<String>>,
    pub actions: Vec<SoundAction>,
    pub fx: Vec<FxCue>,
    pub frames: Vec<Frame>,
    pub cuts: Vec<Cut>,
}

/// A page of a sound map, with its number.
pub struct PageEntry {
    pub number: u32,
    pub page: PageMap,
}

/// The sound map of a chapter: its title, chapter number, origin and
/// pages.
pub struct SoundMap {
    pub title: String,
    pub chapter: Option<u32>,
    pub origin: Option<String>,
    pub pages: Vec<PageEntry>,
}

/// An action as position and sound file.
pub type ActionView = (usize, Seq<char>);

/// A cue as position, kind, axis, bands, rounded frequency, frame and cut.
pub type CueView = (usize, Seq<char>, Option<u8>, Option<u8>, Option<i64>, Option<usize>, Option<usize>);

/// A frame as position, enabled flag and playlist tracks.
pub type FrameView = (usize, bool, Option<Seq<Seq<char>>>);

/// A cut as position, corners, grid columns, grid rows, grid points,
/// anchor flags and splits.
pub type CutView = (usize, usize, usize, usize, usize, Seq<bool>, Seq<[usize; 3]>);

pub open spec fn action_view(a: SoundAction) -> ActionView {
    (a.at, a.file@)
}

pub open spec fn actions_view(s: Seq<SoundAction>) -> Seq<ActionView> {
    s.map_values(|a: SoundAction| action_view(a))
}

pub open spec fn cue_view(c: FxCue) -> CueView {
    (c.at, c.kind@, c.axis, c.bands, c.hz, c.frame, c.cut_idx)
}

pub open spec fn cues_view(s: Seq<FxCue>) -> Seq<CueView> {
    s.map_values(|c: FxCue| cue_view(c))
}

pub open spec fn playlist_view(p: Option<Vec<String>>) -> Option<Seq<Seq<char>>> {
    match p {
        Some(v) => Some(views_of(v@)),
        None => None,
    }
}

pub open spec fn frame_view(f: Frame) -> FrameView {
    (f.at, f.enabled, playlist_view(f.playlist))
}

pub open spec fn frames_view(s: Seq<Frame>) -> Seq<FrameView> {
    s.map_values(|f: Frame| frame_view(f))
}

pub open spec fn cut_view(c: Cut) -> CutView {
    (c.at, c.poly_len, c.grid_cols, c.grid_rows, c.grid_points, c.grid_anchored@, c.grid_splits@)
}

pub open spec fn cuts_view(s: Seq<Cut>) -> Seq<CutView> {
    s.map_values(|c: Cut| cut_view(c))
}

/// The first `n` items of `s`, or all of them when there are fewer.
pub open spec fn take_at_most<A>(s: Seq<A>, n: int) -> Seq<A> {
    if s.len() > n {
        s.subrange(0, n)
    } else {
        s
    }
}

/// The actions whose sound file is safe, with the file made safe, in
/// order.
pub open spec fn kept_actions(s: Seq<ActionView>) -> Seq<ActionView>
    decreases s.len(),
{
    if s.len() == 0 {
        Seq::empty()
    } else {
        let f = sanitized_rel(s.last().1);
        if f.len() == 0 {
            kept_actions(s.drop_last())
        } else {
            kept_actions(s.drop_last()).push((s.last().0, f))
        }
    }
}

/// `wave`.
pub open spec fn wave_kind() -> Seq<char> {
    seq!['w', 'a', 'v', 'e']
}

/// `wind`.
pub open spec fn wind_kind() -> Seq<char> {
    seq!['w', 'i', 'n', 'd']
}

/// The older vertical wave (`wave2`) read as a wave along axis 1.
pub open spec fn renamed_cue(c: CueView) -> CueView {
    if c.1 == seq!['w', 'a', 'v', 'e', '2'] {
        (c.0, wave_kind(), Some(1u8), c.3, c.4, c.5, c.6)
    } else {
        c
    }
}

/// The cues of a kind that is known, in order.
pub open spec fn known_cues(s: Seq<CueView>) -> Seq<CueView>
    decreases s.len(),
{
    if s.len() == 0 {
        Seq::empty()
    } else if is_known_fx(s.last().1) {
        known_cues(s.drop_last()).push(s.last())
    } else {
        known_cues(s.drop_last())
    }
}

/// A wind cue without bands whose frequency rounds to 1 to 8 takes that
/// as its number of bands, and drops the frequency.
pub open spec fn wind_fixed(c: CueView) -> CueView {
    if c.1 == wind_kind() && c.3 is None && (c.4 matches Some(b) && 1 <= b <= 8) {
        (c.0, c.1, c.2, Some((c.4->0) as u8), None, c.5, c.6)
    } else {
        c
    }
}

/// The frame a cue names stays when it exists among `enabled` and is
/// enabled.
pub open spec fn frame_checked(c: CueView, enabled: Seq<bool>) -> CueView {
    (c.0, c.1, c.2, c.3, c.4, match c.5 {
        Some(f) => if f < enabled.len() && enabled[f as int] {
            Some(f)
        } else {
            None
        },
        None => None,
    }, c.6)
}

/// The cut a cue names stays when there are more than that many cuts.
pub open spec fn cut_checked(c: CueView, cuts: int) -> CueView {
    (c.0, c.1, c.2, c.3, c.4, c.5, match c.6 {
        Some(k) => if k < cuts {
            Some(k)
        } else {
            None
        },
        None => None,
    })
}

/// The tracks of a frame playlist whose safe form is not empty; they are
/// kept as written.
pub open spec fn playable_tracks(s: Seq<Seq<char>>) -> Seq<Seq<char>>
    decreases s.len(),
{
    if s.len() == 0 {
        Seq::empty()
    } else if sanitized_rel(s.last()).len() > 0 {
        playable_tracks(s.drop_last()).push(s.last())
    } else {
        playable_tracks(s.drop_last())
    }
}

/// A frame whose playlist keeps its playable tracks, and loses the
/// playlist when none is left.
pub open spec fn pruned_frame(f: FrameView) -> FrameView {
    (f.0, f.1, match f.2 {
        Some(t) => if playable_tracks(t).len() == 0 {
            None
        } else {
            Some(playable_tracks(t))
        },
        None => None,
    })
}

/// The cuts whose outline has at least three corners, in order.
pub open spec fn long_cuts(s: Seq<CutView>) -> Seq<CutView>
    decreases s.len(),
{
    if s.len() == 0 {
        Seq::empty()
    } else if s.last().1 >= 3 {
        long_cuts(s.drop_last()).push(s.last())
    } else {
        long_cuts(s.drop_last())
    }
}

/// `n` kept between 1 and 16.
pub open spec fn clamped_dimension(n: usize) -> usize {
    if n < 1 {
        1
    } else if n > 16 {
        16
    } else {
        n
    }
}

/// A cut mended: its grid size kept between 1 and 16, one anchor flag per
/// grid point (the flags read, cut or padded with `false`, when their
/// number differs from the points'), and only the valid splits.
pub open spec fn fixed_cut(c: CutView) -> CutView {
    (c.0, c.1, clamped_dimension(c.2), clamped_dimension(c.3), c.4, if c.5.len() != c.4 {
        Seq::new(c.4 as nat, |i: int| i < c.5.len() && c.5[i])
    } else {
        c.5
    }, valid_splits(c.6, c.4))
}

/// The cuts of a page after the repairs: the short ones dropped, at most
/// `MAX_CUTS` kept, each mended.
pub open spec fn repaired_cuts(s: Seq<CutView>) -> Seq<CutView> {
    take_at_most(long_cuts(s), MAX_CUTS as int).map_values(|c: CutView| fixed_cut(c))
}

/// The cues of a page after the repairs, `frames` being its frames as
/// read and `cuts` the number of its cuts after their repairs: the older
/// vertical wave renamed, unknown kinds dropped, at most `MAX_FX` kept,
/// then in each the wind bands taken from the frequency, the frame checked
/// and the cut checked.
pub open spec fn repaired_cues(s: Seq<CueView>, frames: Seq<FrameView>, cuts: int) -> Seq<CueView> {
    let enabled = frames.map_values(|f: FrameView| f.1);
    take_at_most(known_cues(s.map_values(|c: CueView| renamed_cue(c))), MAX_FX as int).map_values(
        |c: CueView| cut_checked(frame_checked(wind_fixed(c), enabled), cuts),
    )
}

pub open spec fn track_view(t: Option<Vec<String>>) -> Option<Seq<Seq<char>>> {
    match t {
        Some(v) => Some(views_of(v@)),
        None => None,
    }
}

/// The tracks of a background sound after its repairs.
pub open spec fn repaired_track(t: Option<Seq<Seq<char>>>) -> Option<Seq<Seq<char>>> {
    match t {
        Some(v) => Some(sanitized_tracks(v)),
        None => None,
    }
}

/// Whether `after` is the page `before` with the repairs made as a sound
/// map is read, in this order: the background music and the ambience
/// keep their safe tracks; the actions keep those with a safe sound file
/// (made safe), at most `MAX_ACTIONS`; the cues are repaired against the
/// frames as read and the repaired cuts; at most `MAX_FRAMES` frames are
/// kept, with their playlists pruned; the cuts are repaired.
pub open spec fn page_repaired(before: PageMap, after: PageMap) -> bool {
    let cuts = repaired_cuts(cuts_view(before.cuts@));
    &&& track_view(after.bgm) == repaired_track(track_view(before.bgm))
    &&& track_view(after.ambient) == repaired_track(track_view(before.ambient))
    &&& actions_view(after.actions@) == take_at_most(kept_actions(actions_view(before.actions@)), MAX_ACTIONS as int)
    &&& cues_view(after.fx@) == repaired_cues(cues_view(before.fx@), frames_view(before.frames@), cuts.len() as int)
    &&& frames_view(after.frames@) == take_at_most(frames_view(before.frames@), MAX_FRAMES as int).map_values(
        |f: FrameView| pruned_frame(f),
    )
    &&& cuts_view(after.cuts@) == cuts
}

fn repair_track(t: &Option<Vec<String>>) -> (r: Option<Vec<String>>)
    ensures
        track_view(r) == repaired_track(track_view(*t)),
{
    match t {
        Some(v) => Some(sanitize_tracks(v)),
        None => None,
    }
}

fn repair_actions(actions: &Vec<SoundAction>) -> (r: Vec<SoundAction>)
    ensures
        actions_view(r@) == take_at_most(kept_actions(actions_view(actions@)), MAX_ACTIONS as int),
{
    let ghost all = actions_view(actions@);
    let mut out: Vec<SoundAction> = Vec::new();
    let mut i: usize = 0;
    while i < actions.len()
        invariant
            0 <= i <= actions@.len(),
            all == actions_view(actions@),
            actions_view(out@) == kept_actions(all.subrange(0, i as int)),
        decreases actions@.len() - i,
    {
        let ghost sub = all.subrange(0, i + 1);
        assert(sub.drop_last() =~= all.subrange(0, i as int));
        assert(sub.last() == action_view(actions@[i as int]));
        let f = sanitize_rel(actions[i].file.as_str());
        if !f.as_str().is_empty() {
            let ghost before = out@;
            let a = SoundAction { at: actions[i].at, file: f };
            let ghost av = action_view(a);
            out.push(a);
            assert(actions_view(out@) =~= actions_view(before).push(av));
        }
        i += 1;
    }
    assert(all.subrange(0, all.len() as int) =~= all);
    if out.len() > MAX_ACTIONS {
        let ghost before = out@;
        out.truncate(MAX_ACTIONS);
        assert(actions_view(out@) =~= actions_view(before).subrange(0, MAX_ACTIONS as int));
    }
    out
}

fn playable(v: &Vec<String>) -> (r: Vec<String>)
    ensures
        views_of(r@) == playable_tracks(views_of(v@)),
{
    let ghost all = views_of(v@);
    let mut out: Vec<String> = Vec::new();
    let mut i: usize = 0;
    while i < v.len()
        invariant
            0 <= i <= v@.len(),
            all == views_of(v@),
            views_of(out@) == playable_tracks(all.subrange(0, i as int)),
        decreases v@.len() - i,
    {
        let ghost sub = all.subrange(0, i + 1);
        assert(sub.drop_last() =~= all.subrange(0, i as int));
        assert(sub.last() == v@[i as int]@);
        let t = sanitize_rel(v[i].as_str());
        if !t.as_str().is_empty() {
            let ghost before = out@;
            let c = copy_str(v[i].as_str());
            out.push(c);
            assert(views_of(out@) =~= views_of(before).push(v@[i as int]@));
        }
        i += 1;
    }
    assert(all.subrange(0, all.len() as int) =~= all);
    out
}

fn prune_frame(f: &Frame) -> (r: Frame)
    ensures
        frame_view(r) == pruned_frame(frame_view(*f)),
{
    let playlist = match &f.playlist {
        Some(t) => {
            let kept = playable(t);
            if kept.len() == 0 {
                None
            } else {
                Some(kept)
            }
        },
        None => None,
    };
    Frame { at: f.at, enabled: f.enabled, playlist }
}

fn repair_frames(frames: &Vec<Frame>) -> (r: Vec<Frame>)
    ensures
        frames_view(r@) == take_at_most(frames_view(frames@), MAX_FRAMES as int).map_values(
            |f: FrameView| pruned_frame(f),
        ),
{
    let n = if frames.len() > MAX_FRAMES {
        MAX_FRAMES
    } else {
        frames.len()
    };
    let mut out: Vec<Frame> = Vec::new();
    let mut i: usize = 0;
    while i < n
        invariant
            0 <= i <= n,
            n <= frames@.len(),
            n == if frames@.len() > MAX_FRAMES { MAX_FRAMES as int } else { frames@.len() as int },
            out@.len() == i,
            forall|k: int| 0 <= k < i ==> #[trigger] frame_view(out@[k]) == pruned_frame(frame_view(frames@[k])),
        decreases n - i,
    {
        out.push(prune_frame(&frames[i]));
        i += 1;
    }
    assert(frames_view(out@) =~= take_at_most(frames_view(frames@), MAX_FRAMES as int).map_values(
        |f: FrameView| pruned_frame(f),
    ));
    out
}

fn fix_cut(c: &Cut) -> (r: Cut)
    ensures
        cut_view(r) == fixed_cut(cut_view(*c)),
{
    let anchored = fit_anchored(&c.grid_anchored, c.grid_points);
    proof {
        let a = c.grid_anchored@;
        if a.len() != c.grid_points {
            assert(anchored@ =~= Seq::new(c.grid_points as nat, |i: int| i < a.len() && a[i]));
        } else {
            assert(anchored@ =~= a);
        }
    }
    Cut {
        at: c.at,
        poly_len: c.poly_len,
        grid_cols: clamp_grid_dimension(c.grid_cols),
        grid_rows: clamp_grid_dimension(c.grid_rows),
        grid_points: c.grid_points,
        grid_anchored: anchored,
        grid_splits: retain_valid_splits(&c.grid_splits, c.grid_points),
    }
}

fn repair_cuts(cuts: &Vec<Cut>) -> (r: Vec<Cut>)
    ensures
        cuts_view(r@) == repaired_cuts(cuts_view(cuts@)),
{
    let ghost all = cuts_view(cuts@);
    let mut out: Vec<Cut> = Vec::new();
    let mut i: usize = 0;
    while i < cuts.len()
        invariant
            0 <= i <= cuts@.len(),
            all == cuts_view(cuts@),
            cuts_view(out@) == long_cuts(all.subrange(0, i as int)).map_values(|c: CutView| fixed_cut(c)),
        decreases cuts@.len() - i,
    {
        let ghost sub = all.subrange(0, i + 1);
        assert(sub.drop_last() =~= all.subrange(0, i as int));
        assert(sub.last() == cut_view(cuts@[i as int]));
        if cuts[i].poly_len >= 3 {
            let ghost before = out@;
            let c = fix_cut(&cuts[i]);
            let ghost cv = cut_view(c);
            out.push(c);
            assert(cuts_view(out@) =~= cuts_view(before).push(cv));
            assert(long_cuts(sub).map_values(|c: CutView| fixed_cut(c)) =~= long_cuts(
                all.subrange(0, i as int),
            ).map_values(|c: CutView| fixed_cut(c)).push(cv));
        }
        i += 1;
    }
    assert(all.subrange(0, all.len() as int) =~= all);
    let ghost kept = long_cuts(all);
    if out.len() > MAX_CUTS {
        let ghost before = out@;
        out.truncate(MAX_CUTS);
        assert(cuts_view(out@) =~= cuts_view(before).subrange(0, MAX_CUTS as int));
        assert(cuts_view(out@) =~= take_at_most(kept, MAX_CUTS as int).map_values(|c: CutView| fixed_cut(c)));
    } else {
        assert(cuts_view(out@) =~= take_at_most(kept, MAX_CUTS as int).map_values(|c: CutView| fixed_cut(c)));
    }
    out
}

fn known_renamed_cues(fx: &Vec<FxCue>) -> (r: Vec<FxCue>)
    ensures
        cues_view(r@) == known_cues(cues_view(fx@).map_values(|c: CueView| renamed_cue(c))),
{
    let ghost all = cues_view(fx@).map_values(|c: CueView| renamed_cue(c));
    let mut out: Vec<FxCue> = Vec::new();
    let mut i: usize = 0;
    while i < fx.len()
        invariant
            0 <= i <= fx@.len(),
            all == cues_view(fx@).map_values(|c: CueView| renamed_cue(c)),
            cues_view(out@) == known_cues(all.subrange(0, i as int)),
        decreases fx@.len() - i,
    {
        let ghost sub = all.subrange(0, i + 1);
        assert(sub.drop_last() =~= all.subrange(0, i as int));
        assert(sub.last() == renamed_cue(cue_view(fx@[i as int])));
        let c = &fx[i];
        let renamed = if is_legacy_vertical_wave(c.kind.as_str()) {
            let k = copy_str("wave");
            proof {
                reveal_strlit("wave");
            }
            assert(k@ =~= wave_kind());
            FxCue { at: c.at, kind: k, axis: Some(1u8), bands: c.bands, hz: c.hz, frame: c.frame, cut_idx: c.cut_idx }
        } else {
            FxCue {
                at: c.at,
                kind: copy_str(c.kind.as_str()),
                axis: c.axis,
                bands: c.bands,
                hz: c.hz,
                frame: c.frame,
                cut_idx: c.cut_idx,
            }
        };
        assert(cue_view(renamed) == renamed_cue(cue_view(fx@[i as int])));
        if known_fx(renamed.kind.as_str()) {
            let ghost before = out@;
            let ghost cv = cue_view(renamed);
            out.push(renamed);
            assert(cues_view(out@) =~= cues_view(before).push(cv));
        }
        i += 1;
    }
    assert(all.subrange(0, all.len() as int) =~= all);
    out
}

fn is_wind(kind: &str) -> (r: bool)
    ensures
        r == (kind@ == wind_kind()),
{
    proof {
        reveal_strlit("wind");
    }
    assert("wind"@ =~= wind_kind());
    same_text(kind, "wind")
}

fn fix_cue(c: &FxCue, enabled: &Vec<bool>, cuts: usize) -> (r: FxCue)
    ensures
        cue_view(r) == cut_checked(frame_checked(wind_fixed(cue_view(*c)), enabled@), cuts as int),
{
    let mut bands = c.bands;
    let mut hz = c.hz;
    if is_wind(c.kind.as_str()) && c.bands.is_none() {
        match c.hz {
            Some(b) => {
                if 1 <= b && b <= 8 {
                    bands = Some(b as u8);
                    hz = None;
                }
            },
            None => {},
        }
    }
    FxCue {
        at: c.at,
        kind: copy_str(c.kind.as_str()),
        axis: c.axis,
        bands,
        hz,
        frame: valid_frame_index(c.frame, enabled),
        cut_idx: valid_cut_index(c.cut_idx, cuts),
    }
}

fn repair_cues(fx: &Vec<FxCue>, frames: &Vec<Frame>, cuts: usize) -> (r: Vec<FxCue>)
    ensures
        cues_view(r@) == repaired_cues(cues_view(fx@), frames_view(frames@), cuts as int),
{
    let mut enabled: Vec<bool> = Vec::new();
    let mut j: usize = 0;
    while j < frames.len()
        invariant
            0 <= j <= frames@.len(),
            enabled@ == frames_view(frames@).map_values(|f: FrameView| f.1).subrange(0, j as int),
        decreases frames@.len() - j,
    {
        enabled.push(frames[j].enabled);
        assert(enabled@ =~= frames_view(frames@).map_values(|f: FrameView| f.1).subrange(0, j + 1));
        j += 1;
    }
    assert(enabled@ =~= frames_view(frames@).map_values(|f: FrameView| f.1));
    let mut kept = known_renamed_cues(fx);
    let ghost k0 = cues_view(kept@);
    if kept.len() > MAX_FX {
        let ghost before = kept@;
        kept.truncate(MAX_FX);
        assert(cues_view(kept@) =~= cues_view(before).subrange(0, MAX_FX as int));
    }
    assert(cues_view(kept@) == take_at_most(k0, MAX_FX as int));
    let mut out: Vec<FxCue> = Vec::new();
    let mut i: usize = 0;
    while i < kept.len()
        invariant
            0 <= i <= kept@.len(),
            out@.len() == i,
            forall|k: int|
                0 <= k < i ==> #[trigger] cue_view(out@[k]) == cut_checked(
                    frame_checked(wind_fixed(cue_view(kept@[k])), enabled@),
                    cuts as int,
                ),
        decreases kept@.len() - i,
    {
        out.push(fix_cue(&kept[i], &enabled, cuts));
        i += 1;
    }
    assert(cues_view(out@) =~= cues_view(kept@).map_values(
        |c: CueView| cut_checked(frame_checked(wind_fixed(c), enabled@), cuts as int),
    ));
    out
}

/// Makes the repairs of `page_repaired` on a page of a sound map.
pub fn sanitize_page(p: &PageMap) -> (r: PageMap)
    ensures
        page_repaired(*p, r),
{
    let cuts = repair_cuts(&p.cuts);
    let fx = repair_cues(&p.fx, &p.frames, cuts.len());
    PageMap {
        bgm: repair_track(&p.bgm),
        ambient: repair_track(&p.ambient),
        actions: repair_actions(&p.actions),
        fx,
        frames: repair_frames(&p.frames),
        cuts,
    }
}

/// Mends a sound map as it is read: every page is repaired as
/// `page_repaired` says; the title, chapter, origin and page numbers stay.
pub fn sanitize(m: SoundMap) -> (r: SoundMap)
    ensures
        r.title@ == m.title@,
        r.chapter == m.chapter,
        r.origin == m.origin,
        r.pages@.len() == m.pages@.len(),
        forall|i: int|
            0 <= i < m.pages@.len() ==> (#[trigger] r.pages@[i]).number == m.pages@[i].number && page_repaired(
                m.pages@[i].page,
                r.pages@[i].page,
            ),
{
    let mut pages: Vec<PageEntry> = Vec::new();
    let mut i: usize = 0;
    while i < m.pages.len()
        invariant
            0 <= i <= m.pages@.len(),
            pages@.len() == i,
            forall|k: int|
                0 <= k < i ==> (#[trigger] pages@[k]).number == m.pages@[k].number && page_repaired(
                    m.pages@[k].page,
                    pages@[k].page,
                ),
        decreases m.pages@.len() - i,
    {
        let page = sanitize_page(&m.pages[i].page);
        pages.push(PageEntry { number: m.pages[i].number, page });
        i += 1;
    }
    SoundMap { title: m.title, chapter: m.chapter, origin: m.origin, pages }
}

proof fn lemma_kept_actions_nonempty(s: Seq<ActionView>)
    ensures
        kept_actions(s).len() <= s.len(),
        forall|i: int| 0 <= i < kept_actions(s).len() ==> (#[trigger] kept_actions(s)[i]).1.len() > 0,
    decreases s.len(),
{
    if s.len() > 0 {
        lemma_kept_actions_nonempty(s.drop_last());
        let prev = kept_actions(s.drop_last());
        assert forall|i: int| 0 <= i < kept_actions(s).len() implies (#[trigger] kept_actions(s)[i]).1.len() > 0 by {
            if i < prev.len() {
                assert(kept_actions(s)[i] == prev[i]);
            }
        }
    }
}

proof fn lemma_known_cues_known(s: Seq<CueView>)
    ensures
        forall|i: int| 0 <= i < known_cues(s).len() ==> is_known_fx((#[trigger] known_cues(s)[i]).1),
    decreases s.len(),
{
    if s.len() > 0 {
        lemma_known_cues_known(s.drop_last());
        let prev = known_cues(s.drop_last());
        assert forall|i: int| 0 <= i < known_cues(s).len() implies is_known_fx((#[trigger] known_cues(s)[i]).1) by {
            if i < prev.len() {
                assert(known_cues(s)[i] == prev[i]);
            }
        }
    }
}

proof fn lemma_long_cuts_long(s: Seq<CutView>)
    ensures
        forall|i: int| 0 <= i < long_cuts(s).len() ==> (#[trigger] long_cuts(s)[i]).1 >= 3,
    decreases s.len(),
{
    if s.len() > 0 {
        lemma_long_cuts_long(s.drop_last());
        let prev = long_cuts(s.drop_last());
        assert forall|i: int| 0 <= i < long_cuts(s).len() implies (#[trigger] long_cuts(s)[i]).1 >= 3 by {
            if i < prev.len() {
                assert(long_cuts(s)[i] == prev[i]);
            }
        }
    }
}

proof fn lemma_kept_tracks_nonempty(s: Seq<Seq<char>>)
    ensures
        forall|i: int| 0 <= i < kept_tracks(s).len() ==> (#[trigger] kept_tracks(s)[i]).len() > 0,
    decreases s.len(),
{
    if s.len() > 0 {
        lemma_kept_tracks_nonempty(s.drop_last());
        let prev = kept_tracks(s.drop_last());
        assert forall|i: int| 0 <= i < kept_tracks(s).len() implies (#[trigger] kept_tracks(s)[i]).len() > 0 by {
            if i < prev.len() {
                assert(kept_tracks(s)[i] == prev[i]);
            }
        }
    }
}

proof fn lemma_playable_tracks_playable(s: Seq<Seq<char>>)
    ensures
        forall|i: int| 0 <= i < playable_tracks(s).len() ==> sanitized_rel(#[trigger] playable_tracks(s)[i]).len() > 0,
    decreases s.len(),
{
    if s.len() > 0 {
        lemma_playable_tracks_playable(s.drop_last());
        let prev = playable_tracks(s.drop_last());
        assert forall|i: int| 0 <= i < playable_tracks(s).len() implies sanitized_rel(#[trigger] playable_tracks(s)[i]).len() > 0 by {
            if i < prev.len() {
                assert(playable_tracks(s)[i] == prev[i]);
            }
        }
    }
}

/// Whether the tracks `t` of a background sound are within bounds: at most
/// `MAX_TRACKS`, none empty.
pub open spec fn tracks_bounded(t: Option<Vec<String>>) -> bool {
    t matches Some(v) ==> v@.len() <= MAX_TRACKS && forall|i: int| 0 <= i < v@.len() ==> (#[trigger] v@[i])@.len() > 0
}

proof fn lemma_repaired_track_bounded(before: Option<Vec<String>>, after: Option<Vec<String>>)
    requires
        track_view(after) == repaired_track(track_view(before)),
    ensures
        tracks_bounded(after),
{
    if let Some(v) = after {
        let b = track_view(before)->0;
        lemma_kept_tracks_nonempty(b);
        let kept = kept_tracks(b);
        assert(views_of(v@) == sanitized_tracks(b));
        assert forall|i: int| 0 <= i < v@.len() implies (#[trigger] v@[i])@.len() > 0 by {
            assert(views_of(v@)[i] == v@[i]@);
            assert(sanitized_tracks(b)[i] == kept[i]);
        }
    }
}

/// A repaired page is within the bounds that a sound map keeps: at most
/// `MAX_ACTIONS` actions, none without a sound file; at most `MAX_FX` cues,
/// each of a known kind and naming only a cut that exists; at most
/// `MAX_CUTS` cuts, each with at least three corners, a grid between 1 and
/// 16 in each direction and one anchor flag per grid point; at most
/// `MAX_FRAMES` frames, whose playlists are not empty and hold only
/// playable tracks; and background tracks within `tracks_bounded`.
pub proof fn lemma_page_repaired_bounds(before: PageMap, after: PageMap)
    requires
        page_repaired(before, after),
    ensures
        after.actions@.len() <= MAX_ACTIONS,
        forall|i: int| 0 <= i < after.actions@.len() ==> (#[trigger] after.actions@[i]).file@.len() > 0,
        after.fx@.len() <= MAX_FX,
        forall|i: int| 0 <= i < after.fx@.len() ==> is_known_fx((#[trigger] after.fx@[i]).kind@),
        forall|i: int| 0 <= i < after.fx@.len() ==> ((#[trigger] after.fx@[i]).cut_idx matches Some(c) ==> c
            < after.cuts@.len()),
        after.cuts@.len() <= MAX_CUTS,
        forall|i: int|
            0 <= i < after.cuts@.len() ==> {
                let c = #[trigger] after.cuts@[i];
                &&& c.poly_len >= 3
                &&& 1 <= c.grid_cols <= 16
                &&& 1 <= c.grid_rows <= 16
                &&& c.grid_anchored@.len() == c.grid_points
            },
        after.frames@.len() <= MAX_FRAMES,
        forall|i: int|
            0 <= i < after.frames@.len() ==> ((#[trigger] after.frames@[i]).playlist matches Some(t) ==> t@.len() > 0
                && forall|k: int| 0 <= k < t@.len() ==> sanitized_rel((#[trigger] t@[k])@).len() > 0),
        tracks_bounded(after.bgm),
        tracks_bounded(after.ambient),
{
    lemma_repaired_track_bounded(before.bgm, after.bgm);
    lemma_repaired_track_bounded(before.ambient, after.ambient);
    let av = actions_view(before.actions@);
    lemma_kept_actions_nonempty(av);
    assert(actions_view(after.actions@).len() == after.actions@.len());
    assert forall|i: int| 0 <= i < after.actions@.len() implies (#[trigger] after.actions@[i]).file@.len() > 0 by {
        assert(actions_view(after.actions@)[i] == action_view(after.actions@[i]));
        assert(take_at_most(kept_actions(av), MAX_ACTIONS as int)[i] == kept_actions(av)[i]);
    }
    assert(actions_view(after.actions@).len() == after.actions@.len());
    let cv = cues_view(before.fx@).map_values(|c: CueView| renamed_cue(c));
    lemma_known_cues_known(cv);
    let cuts = repaired_cuts(cuts_view(before.cuts@));
    assert(cues_view(after.fx@).len() == after.fx@.len());
    assert(cuts_view(after.cuts@).len() == after.cuts@.len());
    let enabled = frames_view(before.frames@).map_values(|f: FrameView| f.1);
    assert forall|i: int| 0 <= i < after.fx@.len() implies is_known_fx((#[trigger] after.fx@[i]).kind@) && (
    after.fx@[i].cut_idx matches Some(c) ==> c < after.cuts@.len()) by {
        assert(cues_view(after.fx@)[i] == cue_view(after.fx@[i]));
        let k = take_at_most(known_cues(cv), MAX_FX as int)[i];
        assert(k == known_cues(cv)[i]);
        assert(cue_view(after.fx@[i]) == cut_checked(frame_checked(wind_fixed(k), enabled), cuts.len() as int));
    }
    let lc = long_cuts(cuts_view(before.cuts@));
    lemma_long_cuts_long(cuts_view(before.cuts@));
    assert forall|i: int| 0 <= i < after.cuts@.len() implies {
        let c = #[trigger] after.cuts@[i];
        &&& c.poly_len >= 3
        &&& 1 <= c.grid_cols <= 16
        &&& 1 <= c.grid_rows <= 16
        &&& c.grid_anchored@.len() == c.grid_points
    } by {
        assert(cuts_view(after.cuts@)[i] == cut_view(after.cuts@[i]));
        assert(take_at_most(lc, MAX_CUTS as int)[i] == lc[i]);
        assert(cut_view(after.cuts@[i]) == fixed_cut(lc[i]));
    }
    assert(frames_view(after.frames@).len() == after.frames@.len());
    assert forall|i: int| 0 <= i < after.frames@.len() implies ((#[trigger] after.frames@[i]).playlist matches Some(
        t,
    ) ==> t@.len() > 0 && forall|k: int| 0 <= k < t@.len() ==> sanitized_rel((#[trigger] t@[k])@).len() > 0) by {
        assert(frames_view(after.frames@)[i] == frame_view(after.frames@[i]));
        let f = take_at_most(frames_view(before.frames@), MAX_FRAMES as int)[i];
        assert(frame_view(after.frames@[i]) == pruned_frame(f));
        if let Some(t) = after.frames@[i].playlist {
            let orig = f.2->0;
            lemma_playable_tracks_playable(orig);
            assert(views_of(t@) == playable_tracks(orig));
            assert(views_of(t@).len() == t@.len());
            assert forall|k: int| 0 <= k < t@.len() implies sanitized_rel((#[trigger] t@[k])@).len() > 0 by {
                assert(views_of(t@)[k] == t@[k]@);
            }
        }
    }
}

/// Every page of a sanitized sound map is within the bounds of
/// `lemma_page_repaired_bounds`.
pub proof fn lemma_sanitize_bounds(before: SoundMap, after: SoundMap, i: int)
    requires
        after.pages@.len() == before.pages@.len(),
        forall|k: int|
            0 <= k < before.pages@.len() ==> (#[trigger] after.pages@[k]).number == before.pages@[k].number
                && page_repaired(before.pages@[k].page, after.pages@[k].page),
        0 <= i < after.pages@.len(),
    ensures
        after.pages@[i].page.actions@.len() <= MAX_ACTIONS,
        after.pages@[i].page.fx@.len() <= MAX_FX,
        after.pages@[i].page.cuts@.len() <= MAX_CUTS,
        after.pages@[i].page.frames@.len() <= MAX_FRAMES,
        tracks_bounded(after.pages@[i].page.bgm),
        tracks_bounded(after.pages@[i].page.ambient),
{
    lemma_page_repaired_bounds(before.pages@[i].page, after.pages@[i].page);
}

} // verus!
