use sleeve::cli::Cli;

fn parse_url_only(url: &str) -> Cli {
    Cli {
        url: url.into(),
        dest: None,
        format: None,
        bitrate: None,
        artist: None,
        album: None,
        year: None,
        genre: None,
        comment: None,
        music: false,
        keep_full: false,
        no_cover: false,
        flat: false,
        dry_run: false,
        list: false,
    }
}

#[test]
fn album_folder_is_artist_and_album() {
    let cli = parse_url_only("u");
    assert_eq!(
        cli.album_dir_name("The Album", Some("The Band")),
        Some("The Band - The Album".to_string())
    );
}

#[test]
fn album_folder_omits_a_missing_artist() {
    let cli = parse_url_only("u");
    assert_eq!(
        cli.album_dir_name("Just An Album", None),
        Some("Just An Album".into())
    );
}

#[test]
fn album_folder_is_sanitised_like_any_other_path_component() {
    let cli = parse_url_only("u");
    let name = cli.album_dir_name("Live 8/7/26", Some("A/B")).unwrap();
    assert!(!name.contains('/'), "{name}");
}

#[test]
fn flat_suppresses_the_album_folder() {
    let mut cli = parse_url_only("u");
    cli.flat = true;
    assert_eq!(cli.album_dir_name("The Album", Some("The Band")), None);
}
