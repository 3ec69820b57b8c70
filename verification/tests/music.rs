use std::path::Path;

use sleeve::music::{candidate_paths, find_auto_add_dir, first_marked};

#[test]
fn candidates_cover_both_music_and_legacy_itunes_layouts() {
    let paths = candidate_paths("/Users/x");
    let joined: Vec<String> = paths.clone();

    assert!(
        joined
            .iter()
            .any(|p| p.contains("Music/Music/Media.localized"))
    );
    assert!(joined.iter().any(|p| p.contains("iTunes/iTunes Media")));
    assert!(
        joined
            .iter()
            .any(|p| p.ends_with("Automatically Add to Music.localized"))
    );
    assert!(
        joined
            .iter()
            .any(|p| p.ends_with("Automatically Add to iTunes.localized"))
    );
}

#[test]
fn the_modern_localized_path_is_preferred() {
    // Order matters: an upgraded library can have both, and the current
    // one is where Music actually watches.
    let first = candidate_paths("/Users/x")[0].clone();
    assert!(
        first.ends_with("Music/Music/Media.localized/Automatically Add to Music.localized")
    );
}

/// Makes the directory `name` inside `parent`, removed again when dropped.
fn dir_in(parent: &Path, name: &str) -> tempfile::TempDir {
    tempfile::Builder::new()
        .prefix(name)
        .rand_bytes(0)
        .tempdir_in(parent)
        .unwrap()
}

/// Makes `Music/Music/Media.localized` under `home`.
fn media_root(home: &Path) -> Vec<tempfile::TempDir> {
    let music = dir_in(home, "Music");
    let inner = dir_in(music.path(), "Music");
    let media = dir_in(inner.path(), "Media.localized");
    vec![music, inner, media]
}

#[test]
fn finds_an_existing_watched_folder() {
    let home = tempfile::tempdir().unwrap();
    let root = media_root(home.path());
    let watched = dir_in(root[2].path(), "Automatically Add to Music.localized");
    let expected = home
        .path()
        .join("Music/Music/Media.localized/Automatically Add to Music.localized");
    assert_eq!(watched.path(), expected.as_path());

    let home_str = home.path().to_str().unwrap();
    assert_eq!(
        find_auto_add_dir(home_str),
        Some(expected.to_str().unwrap().to_string())
    );
}

#[test]
fn returns_none_when_music_has_no_library() {
    let home = tempfile::tempdir().unwrap();
    assert_eq!(find_auto_add_dir(home.path().to_str().unwrap()), None);
}

#[test]
fn a_file_at_the_candidate_path_does_not_count_as_the_folder() {
    let home = tempfile::tempdir().unwrap();
    let root = media_root(home.path());
    let _file = tempfile::Builder::new()
        .prefix("Automatically Add to Music.localized")
        .rand_bytes(0)
        .tempfile_in(root[2].path())
        .unwrap();

    assert_eq!(find_auto_add_dir(home.path().to_str().unwrap()), None);
}

// ---------------------------------------------------------------------------

#[test]
fn there_are_twelve_candidates_in_root_then_name_order() {
    let paths = candidate_paths("/h");
    assert_eq!(paths.len(), 12);
    assert_eq!(paths[1], "/h/Music/Music/Media.localized/Automatically Add to Music");
    assert_eq!(paths[4], "/h/Music/Music/Media/Automatically Add to Music.localized");
    assert_eq!(paths[11], "/h/Music/iTunes/iTunes Media/Automatically Add to iTunes");
}

#[test]
fn the_first_marked_candidate_wins() {
    let paths = vec!["a".to_string(), "b".to_string(), "c".to_string()];
    assert_eq!(first_marked(&paths, &vec![false, true, true]), Some("b".to_string()));
    assert_eq!(first_marked(&paths, &vec![false, false, false]), None);
}
