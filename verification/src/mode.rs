use vstd::prelude::*;

verus! {

/// How the pages of a title are laid out while reading.
#[derive(Clone, Copy, Debug, PartialEq, Eq, Structural)]
pub enum ReaderMode {
    /// One page at a time.
    Manga,
    /// Two-page spreads.
    Double,
    /// One continuous vertical column.
    Webtoon,
}

} // verus!
