//! Asset buckets: the fixed directories that hold the binary assets, and the
//! rule that maps a logical asset name to a path directly below one of them.

use crate::names::{chars_of, position_of, views};
use vstd::prelude::*;

verus! {

/// A class of binary asset, bound to one base directory.
#[derive(Debug, Clone, Copy, PartialEq, Eq, Structural)]
pub enum Bucket {
    Visuals,
    Audio,
    Covers,
    CategoryIcons,
    Themes,
}

impl Bucket {
    /// The base directory of the bucket, as characters.
    pub open spec fn dir(self) -> Seq<char> {
        match self {
            Bucket::Visuals => "decks/Visuals"@,
            Bucket::Audio => "decks/Sounds"@,
            Bucket::Covers => "decks/Covers"@,
            Bucket::CategoryIcons => "decks/Categories"@,
            Bucket::Themes => "decks/Themes"@,
        }
    }

    /// The base directory of the bucket.
    pub fn base_dir(self) -> (r: &'static str)
        ensures
            r@ == self.dir(),
    {
        match self {
            Bucket::Visuals => "decks/Visuals",
            Bucket::Audio => "decks/Sounds",
            Bucket::Covers => "decks/Covers",
            Bucket::CategoryIcons => "decks/Categories",
            Bucket::Themes => "decks/Themes",
        }
    }
}

/// The directory that holds the deck files, one file per deck.
pub open spec fn decks_dir_name() -> Seq<char> {
    "decks/Decks"@
}

/// The directory that holds the deck files, one file per deck.
pub fn decks_dir() -> (r: &'static str)
    ensures
        r@ == decks_dir_name(),
{
    "decks/Decks"
}

/// The path of the file that declares the categories and the type labels.
pub fn category_index_file() -> (r: &'static str)
    ensures
        r@ == "decks/Categories/Categories.json"@,
{
    "decks/Categories/Categories.json"
}

/// A character that separates the components of a path.
pub open spec fn is_separator(c: char) -> bool {
    c == '/' || c == '\\'
}

/// A name that denotes a file directly below a directory: not empty, not one
/// of the two dot entries, and free of path separators. A backslash counts as
/// a separator on every platform.
pub open spec fn is_child_name(name: Seq<char>) -> bool {
    &&& name.len() > 0
    &&& name != seq!['.']
    &&& name != seq!['.', '.']
    &&& forall|i: int| 0 <= i < name.len() ==> !is_separator(#[trigger] name[i])
}

/// The path of the file `name` directly below the bucket's directory.
pub open spec fn child_path(bucket: Bucket, name: Seq<char>) -> Seq<char> {
    bucket.dir() + seq!['/'] + name
}

/// `prefix` is how `s` begins.
pub open spec fn starts_with(s: Seq<char>, prefix: Seq<char>) -> bool {
    prefix.len() <= s.len() && s.subrange(0, prefix.len() as int) == prefix
}

/// Tells whether `name` denotes a file directly below a directory.
pub fn is_child(name: &str) -> (r: bool)
    ensures
        r == is_child_name(name@),
{
    let chars = chars_of(name);
    let n = chars.len();
    if n == 0 {
        return false;
    }
    let mut dots_only = true;
    let mut i: usize = 0;
    while i < n
        invariant
            i <= n,
            n == name@.len(),
            chars@ == name@,
            forall|j: int| 0 <= j < i ==> !is_separator(#[trigger] name@[j]),
            dots_only == (forall|j: int| 0 <= j < i ==> #[trigger] name@[j] == '.'),
        decreases n - i,
    {
        let c = chars[i];
        if c == '/' || c == '\\' {
            return false;
        }
        if c != '.' {
            dots_only = false;
        }
        i += 1;
    }
    if dots_only && n <= 2 {
        assert(name@ =~= seq!['.'] || name@ =~= seq!['.', '.']);
        return false;
    }
    proof {
        if name@ == seq!['.'] || name@ == seq!['.', '.'] {
            assert(seq!['.'].len() == 1);
            assert(seq!['.', '.'].len() == 2);
            assert forall|j: int| 0 <= j < n implies #[trigger] name@[j] == '.' by {
                if name@ == seq!['.'] {
                    assert(seq!['.'][j] == '.');
                } else {
                    assert(seq!['.', '.'][j] == '.');
                }
            }
        }
    }
    true
}

/// Resolves a logical asset name inside a bucket. A name that could leave the
/// bucket's directory resolves to nothing.
pub fn asset_path(bucket: Bucket, name: &str) -> (r: Option<String>)
    ensures
        match r {
            Some(path) => is_child_name(name@) && path@ == child_path(bucket, name@),
            None => !is_child_name(name@),
        },
{
    if !is_child(name) {
        return None;
    }
    let mut path = String::from_str(bucket.base_dir());
    proof {
        reveal_strlit("/");
        assert("/"@ =~= seq!['/']);
    }
    path.append("/");
    path.append(name);
    Some(path)
}

/// The path of a card's picture.
pub fn get_visual(name: &str) -> (r: Option<String>)
    ensures
        match r {
            Some(path) => is_child_name(name@) && path@ == child_path(Bucket::Visuals, name@),
            None => !is_child_name(name@),
        },
{
    asset_path(Bucket::Visuals, name)
}

/// The path of a card's sound.
pub fn get_sound(name: &str) -> (r: Option<String>)
    ensures
        match r {
            Some(path) => is_child_name(name@) && path@ == child_path(Bucket::Audio, name@),
            None => !is_child_name(name@),
        },
{
    asset_path(Bucket::Audio, name)
}

/// The path of a theme file.
pub fn get_theme(name: &str) -> (r: Option<String>)
    ensures
        match r {
            Some(path) => is_child_name(name@) && path@ == child_path(Bucket::Themes, name@),
            None => !is_child_name(name@),
        },
{
    asset_path(Bucket::Themes, name)
}

/// The file names found in each bucket's directory.
#[derive(Debug)]
pub struct AssetListing {
    pub visuals: Vec<String>,
    pub audio: Vec<String>,
    pub covers: Vec<String>,
    pub category_icons: Vec<String>,
    pub themes: Vec<String>,
}

impl AssetListing {
    /// The file names listed for a bucket.
    pub open spec fn entries(&self, bucket: Bucket) -> Seq<Seq<char>> {
        match bucket {
            Bucket::Visuals => views(self.visuals@),
            Bucket::Audio => views(self.audio@),
            Bucket::Covers => views(self.covers@),
            Bucket::CategoryIcons => views(self.category_icons@),
            Bucket::Themes => views(self.themes@),
        }
    }

    /// The bucket holds a file of that name, directly below its directory.
    pub open spec fn holds(&self, bucket: Bucket, name: Seq<char>) -> bool {
        is_child_name(name) && self.entries(bucket).contains(name)
    }

    /// The file names listed for a bucket.
    pub fn files(&self, bucket: Bucket) -> (r: &Vec<String>)
        ensures
            views(r@) == self.entries(bucket),
    {
        match bucket {
            Bucket::Visuals => &self.visuals,
            Bucket::Audio => &self.audio,
            Bucket::Covers => &self.covers,
            Bucket::CategoryIcons => &self.category_icons,
            Bucket::Themes => &self.themes,
        }
    }

    /// Tells whether the bucket holds a file of that name.
    pub fn contains(&self, bucket: Bucket, name: &str) -> (r: bool)
        ensures
            r == self.holds(bucket, name@),
    {
        is_child(name) && position_of(self.files(bucket), name).is_some()
    }

    /// Resolves a logical asset name to the path of a listed file. A name
    /// that is not listed, or that could leave the bucket's directory,
    /// resolves to nothing.
    pub fn resolve(&self, bucket: Bucket, name: &str) -> (r: Option<String>)
        ensures
            match r {
                Some(path) => self.holds(bucket, name@) && path@ == child_path(bucket, name@),
                None => !self.holds(bucket, name@),
            },
    {
        if position_of(self.files(bucket), name).is_some() {
            asset_path(bucket, name)
        } else {
            None
        }
    }
}

/// A name with a path separator in it, or one of the two dot entries, is no
/// child name: no such name resolves in any bucket.
pub proof fn traversal_is_rejected(name: Seq<char>)
    requires
        name == seq!['.'] || name == seq!['.', '.'] || (exists|i: int|
            0 <= i < name.len() && is_separator(#[trigger] name[i])),
    ensures
        !is_child_name(name),
{
}

/// A resolved path is the bucket's directory, one separator, and the name:
/// nothing after that separator is a separator, so the path is a direct child
/// of the bucket's directory.
pub proof fn resolved_path_is_direct_child(bucket: Bucket, name: Seq<char>)
    requires
        is_child_name(name),
    ensures
        starts_with(child_path(bucket, name), bucket.dir() + seq!['/']),
        child_path(bucket, name).subrange(
            bucket.dir().len() + 1 as int,
            child_path(bucket, name).len() as int,
        ) == name,
        forall|k: int|
            bucket.dir().len() < k < child_path(bucket, name).len() ==> !is_separator(
                #[trigger] child_path(bucket, name)[k],
            ),
{
    let path = child_path(bucket, name);
    let base = bucket.dir() + seq!['/'];
    assert(path.subrange(0, base.len() as int) =~= base);
    assert(path.subrange(bucket.dir().len() + 1 as int, path.len() as int) =~= name);
    assert forall|k: int| bucket.dir().len() < k < path.len() implies !is_separator(
        #[trigger] path[k],
    ) by {
        assert(path[k] == name[k - bucket.dir().len() - 1]);
    }
}

/// A path resolved in one bucket never lies below another bucket's directory.
pub proof fn buckets_are_disjoint(bucket: Bucket, other: Bucket, name: Seq<char>)
    requires
        bucket != other,
    ensures
        !starts_with(child_path(bucket, name), other.dir() + seq!['/']),
{
    reveal_strlit("decks/Visuals");
    reveal_strlit("decks/Sounds");
    reveal_strlit("decks/Covers");
    reveal_strlit("decks/Categories");
    reveal_strlit("decks/Themes");
    let path = child_path(bucket, name);
    let base = other.dir() + seq!['/'];
    if starts_with(path, base) {
        let head = path.subrange(0, base.len() as int);
        assert(head[6] == path[6]);
        assert(head[7] == path[7]);
        assert(path[6] == bucket.dir()[6]);
        assert(path[7] == bucket.dir()[7]);
        assert(base[6] == other.dir()[6]);
        assert(base[7] == other.dir()[7]);
        assert(false);
    }
}

/// A path resolved in a bucket never lies below the directory of the deck
/// files.
pub proof fn assets_stay_out_of_the_decks_directory(bucket: Bucket, name: Seq<char>)
    ensures
        !starts_with(child_path(bucket, name), decks_dir_name() + seq!['/']),
{
    reveal_strlit("decks/Visuals");
    reveal_strlit("decks/Sounds");
    reveal_strlit("decks/Covers");
    reveal_strlit("decks/Categories");
    reveal_strlit("decks/Themes");
    reveal_strlit("decks/Decks");
    let path = child_path(bucket, name);
    let base = decks_dir_name() + seq!['/'];
    if starts_with(path, base) {
        let head = path.subrange(0, base.len() as int);
        assert(head[6] == path[6]);
        assert(path[6] == bucket.dir()[6]);
        assert(base[6] == decks_dir_name()[6]);
        assert(false);
    }
}

} // verus!
