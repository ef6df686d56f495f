use deck_catalog::asset::{
    asset_path, get_sound, get_theme, get_visual, is_child, AssetListing, Bucket,
};

fn s(text: &str) -> String {
    text.to_string()
}

fn listing() -> AssetListing {
    AssetListing {
        visuals: vec![s("v1.png"), s("shared.bin")],
        audio: vec![s("a1.mp3")],
        covers: vec![s("sample.png")],
        category_icons: vec![s("intro.svg")],
        themes: vec![s("dark.json"), s("..")],
    }
}

#[test]
fn buckets_have_their_directories() {
    assert_eq!(Bucket::Visuals.base_dir(), "decks/Visuals");
    assert_eq!(Bucket::Audio.base_dir(), "decks/Sounds");
    assert_eq!(Bucket::Covers.base_dir(), "decks/Covers");
    assert_eq!(Bucket::CategoryIcons.base_dir(), "decks/Categories");
    assert_eq!(Bucket::Themes.base_dir(), "decks/Themes");
}

#[test]
fn names_resolve_below_their_bucket() {
    assert_eq!(asset_path(Bucket::Visuals, "v1.png"), Some(s("decks/Visuals/v1.png")));
    assert_eq!(asset_path(Bucket::Audio, "a1.mp3"), Some(s("decks/Sounds/a1.mp3")));
    assert_eq!(asset_path(Bucket::Covers, "sample.png"), Some(s("decks/Covers/sample.png")));
    assert_eq!(
        asset_path(Bucket::CategoryIcons, "intro.svg"),
        Some(s("decks/Categories/intro.svg"))
    );
    assert_eq!(asset_path(Bucket::Themes, "dark.json"), Some(s("decks/Themes/dark.json")));
    assert_eq!(get_visual("v1.png"), Some(s("decks/Visuals/v1.png")));
    assert_eq!(get_sound("a1.mp3"), Some(s("decks/Sounds/a1.mp3")));
    assert_eq!(get_theme("dark.json"), Some(s("decks/Themes/dark.json")));
}

#[test]
fn traversal_is_not_found() {
    assert_eq!(get_visual("../../etc/passwd"), None);
    assert_eq!(get_sound("../Visuals/v1.png"), None);
    assert_eq!(get_theme(".."), None);
    assert_eq!(asset_path(Bucket::Covers, "."), None);
    assert_eq!(asset_path(Bucket::Covers, ""), None);
    assert_eq!(asset_path(Bucket::Covers, "/etc/passwd"), None);
    assert_eq!(asset_path(Bucket::Covers, "a/b.png"), None);
    assert_eq!(asset_path(Bucket::Covers, "a\\b.png"), None);
    assert_eq!(asset_path(Bucket::Covers, "..\\secret"), None);
    assert_eq!(asset_path(Bucket::Covers, "trailing/"), None);
}

#[test]
fn dots_inside_a_name_are_harmless() {
    assert!(is_child("..."));
    assert!(is_child("..png"));
    assert!(is_child("a..b"));
    assert!(is_child(".hidden"));
    assert!(!is_child("."));
    assert!(!is_child(".."));
    assert!(!is_child(""));
    assert_eq!(asset_path(Bucket::Visuals, "a..b"), Some(s("decks/Visuals/a..b")));
}

#[test]
fn names_beyond_ascii_resolve() {
    assert_eq!(
        asset_path(Bucket::Visuals, "caf\u{e9}.png"),
        Some(s("decks/Visuals/caf\u{e9}.png"))
    );
    assert_eq!(asset_path(Bucket::Visuals, "\u{e9}/x"), None);
}

#[test]
fn listing_resolves_listed_files_only() {
    let listing = listing();
    assert_eq!(listing.resolve(Bucket::Visuals, "v1.png"), Some(s("decks/Visuals/v1.png")));
    assert_eq!(listing.resolve(Bucket::Visuals, "v2.png"), None);
    assert_eq!(listing.resolve(Bucket::Audio, "v1.png"), None);
    assert_eq!(listing.resolve(Bucket::Audio, "a1.mp3"), Some(s("decks/Sounds/a1.mp3")));
    assert_eq!(listing.resolve(Bucket::Audio, "shared.bin"), None);
    assert!(listing.contains(Bucket::Covers, "sample.png"));
    assert!(!listing.contains(Bucket::Covers, "Sample.png"));
    assert!(listing.contains(Bucket::CategoryIcons, "intro.svg"));
}

#[test]
fn listing_never_resolves_a_dot_entry() {
    let listing = listing();
    assert_eq!(listing.files(Bucket::Themes), &vec![s("dark.json"), s("..")]);
    assert_eq!(listing.resolve(Bucket::Themes, ".."), None);
    assert!(!listing.contains(Bucket::Themes, ".."));
    assert_eq!(listing.resolve(Bucket::Themes, "dark.json"), Some(s("decks/Themes/dark.json")));
}

#[test]
fn catalog_sources_have_their_places() {
    assert_eq!(deck_catalog::asset::decks_dir(), "decks/Decks");
    assert_eq!(deck_catalog::asset::category_index_file(), "decks/Categories/Categories.json");
}
