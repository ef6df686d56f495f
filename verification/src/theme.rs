//! Themes are known by file name alone: every entry of the themes directory
//! whose name ends in the theme extension is a theme.

use crate::names::{ends_with, has_suffix, join_lines, lines_text, views};
use vstd::prelude::*;

verus! {

/// The extension that marks a theme file.
pub open spec fn theme_extension() -> Seq<char> {
    seq!['.', 'j', 's', 'o', 'n']
}

/// A file name that denotes a theme.
pub open spec fn is_theme_file(name: Seq<char>) -> bool {
    ends_with(name, theme_extension())
}

/// The test that picks the theme files out of a directory's entries.
pub open spec fn theme_filter() -> spec_fn(Seq<char>) -> bool {
    |name: Seq<char>| is_theme_file(name)
}

/// The theme files among the entries of a directory, in the order given.
pub open spec fn theme_files(entries: Seq<Seq<char>>) -> Seq<Seq<char>> {
    entries.filter(theme_filter())
}

/// Tells whether a file name denotes a theme.
pub fn is_theme(name: &str) -> (r: bool)
    ensures
        r == is_theme_file(name@),
{
    proof {
        reveal_strlit(".json");
        assert(".json"@ =~= theme_extension());
    }
    has_suffix(name, ".json")
}

/// Picks the theme files out of the entries of the themes directory.
pub fn list_theme_names(entries: &Vec<String>) -> (r: Vec<String>)
    ensures
        views(r@) == theme_files(views(entries@)),
{
    let ghost all = views(entries@);
    let mut out: Vec<String> = Vec::new();
    let mut i: usize = 0;
    proof {
        reveal(Seq::filter);
        assert(views(out@) =~= theme_files(all.take(0)));
    }
    while i < entries.len()
        invariant
            i <= entries.len(),
            all == views(entries@),
            views(out@) == theme_files(all.take(i as int)),
        decreases entries.len() - i,
    {
        let ghost before = views(out@);
        proof {
            reveal(Seq::filter);
            assert(all.take(i + 1).drop_last() =~= all.take(i as int));
            assert(all.take(i + 1).last() == entries@[i as int]@);
        }
        if is_theme(entries[i].as_str()) {
            out.push(entries[i].clone());
            assert(views(out@) =~= before.push(entries@[i as int]@));
        }
        i += 1;
    }
    assert(all.take(entries.len() as int) =~= all);
    out
}

/// Lists the theme files among the entries of the themes directory, one per
/// line.
pub fn theme_names(entries: &Vec<String>) -> (r: String)
    ensures
        r@ == lines_text(theme_files(views(entries@))),
{
    let themes = list_theme_names(entries);
    join_lines(&themes)
}

/// A listing of themes holds theme files only, and every theme file among the
/// entries is in it.
pub proof fn theme_listing_is_exact(entries: Seq<Seq<char>>, name: Seq<char>)
    ensures
        theme_files(entries).contains(name) <==> entries.contains(name) && is_theme_file(name),
{
    let themes = theme_files(entries);
    if themes.contains(name) {
        let k = choose|k: int| 0 <= k < themes.len() && themes[k] == name;
        entries.lemma_filter_pred(theme_filter(), k);
        entries.lemma_filter_contains_rev(theme_filter(), name);
    }
    if entries.contains(name) && is_theme_file(name) {
        let k = choose|k: int| 0 <= k < entries.len() && entries[k] == name;
        entries.lemma_filter_contains(theme_filter(), k);
    }
}

} // verus!
