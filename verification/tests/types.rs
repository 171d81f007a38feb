use kotlin_lsp::types::{
    CursorPos, FileData, ImportEntry, IndexStats, Location, Position, Range, Visibility,
};
use tower_lsp::lsp_types::Url;

fn entry(full_path: &str, local_name: &str, is_star: bool) -> ImportEntry {
    ImportEntry {
        full_path: full_path.to_string(),
        local_name: local_name.to_string(),
        is_star,
    }
}

#[test]
fn covers_direct_import() {
    assert!(entry("com.example.Config", "Config", false).covers("com.example", "Config"));
}

#[test]
fn covers_nested_import() {
    assert!(entry("com.example.Outer.Config", "Config", false).covers("com.example", "Config"));
}

#[test]
fn covers_deeply_nested_import() {
    assert!(
        entry("com.example.Outer.Inner.Config", "Config", false).covers("com.example", "Config")
    );
}

#[test]
fn covers_star_import_for_package_members() {
    assert!(entry("com.example", "*", true).covers("com.example", "Config"));
}

#[test]
fn does_not_cover_other_package() {
    assert!(!entry("com.other.Outer.Config", "Config", false).covers("com.example", "Config"));
}

#[test]
fn covers_asks_for_the_whole_package_segment() {
    assert!(!entry("com.example2.Config", "Config", false).covers("com.example", "Config"));
    assert!(!entry("com.example.sub", "*", true).covers("com.example", "Config"));
    assert!(!entry("com.example.Other", "Other", false).covers("com.example", "Config"));
}

#[test]
fn visibility_defaults_to_public() {
    assert_eq!(Visibility::default(), Visibility::Public);
}

#[test]
fn defaults_are_empty() {
    let stats = IndexStats::default();
    assert_eq!(stats.files_discovered, 0);
    assert_eq!(stats.errors, 0);
    let data = FileData::default();
    assert!(data.symbols.is_empty());
    assert!(data.package.is_none());
    assert!(data.supers.is_empty());
}

#[test]
fn locations_clone_whole() {
    let start = Position { line: 3, character: 7 };
    let location = Location {
        uri: Url::parse("file:///a.kt").unwrap(),
        range: Range { start, end: start },
    };
    assert_eq!(location.clone(), location);
    let cursor = CursorPos { line: 1, utf16_col: 2 };
    assert_eq!(cursor, CursorPos { line: 1, utf16_col: 2 });
}
