use sleeve::config::{
    config_path, config_path_in, pick_dest, Config, FileConfig, Format,
};

#[test]
fn format_extensions_and_codecs_line_up() {
    assert_eq!(Format::M4a.extension(), "m4a");
    assert_eq!(Format::M4a.codec(), Some("aac"));
    assert_eq!(Format::Mp3.codec(), Some("libmp3lame"));
    // Opus is copied, never encoded.
    assert_eq!(Format::Opus.codec(), None);
}

#[test]
fn only_the_copied_format_lacks_cover_and_music_support() {
    for f in [Format::M4a, Format::Mp3] {
        assert!(f.supports_embedded_cover(), "{f:?}");
        assert!(f.importable_by_music_app(), "{f:?}");
    }
    assert!(!Format::Opus.supports_embedded_cover());
    assert!(!Format::Opus.importable_by_music_app());
}

#[test]
fn cli_beats_file_beats_default() {
    let file = FileConfig {
        dest: Some("/from/file".into()),
        format: Some(Format::Mp3),
        ..Default::default()
    };

    let from_file = Config::resolve(&file, "/Users/x/Desktop", None, None, None, None, false, false);
    assert_eq!(from_file.dest, "/from/file");
    assert_eq!(from_file.format, Format::Mp3);

    let from_cli = Config::resolve(
        &file,
        "/Users/x/Desktop",
        Some("/from/cli".into()),
        Some(Format::Opus),
        None,
        None,
        false,
        false,
    );
    assert_eq!(from_cli.dest, "/from/cli");
    assert_eq!(from_cli.format, Format::Opus);
}

#[test]
fn bitrate_defaults_track_the_resolved_format() {
    // The default must follow the format that actually won the precedence
    // fight, not the built-in default format.
    let file = FileConfig {
        format: Some(Format::Mp3),
        ..Default::default()
    };
    let cfg = Config::resolve(&file, "/Users/x/Desktop", None, None, None, None, false, false);
    assert_eq!(cfg.bitrate, "320k");

    let cfg = Config::resolve(&FileConfig::default(), "/Users/x/Desktop", None, None, None, None, false, false);
    assert_eq!(cfg.bitrate, "256k");
}

#[test]
fn the_music_flag_ors_with_the_file_setting() {
    let file = FileConfig {
        add_to_music: Some(true),
        ..Default::default()
    };
    assert!(Config::resolve(&file, "/Users/x/Desktop", None, None, None, None, false, false).add_to_music);

    let file = FileConfig::default();
    assert!(Config::resolve(&file, "/Users/x/Desktop", None, None, None, None, true, false).add_to_music);
    assert!(!Config::resolve(&file, "/Users/x/Desktop", None, None, None, None, false, false).add_to_music);
}

#[test]
fn config_path_is_a_hand_editable_dotfile() {
    // Not ~/Library/Application Support.
    if let Some(p) = config_path() {
        assert!(p.contains("/.config/sleeve/config.toml"), "{p}");
    }
}

// ---------------------------------------------------------------------------

#[test]
fn the_default_format_is_m4a() {
    assert_eq!(Format::default(), Format::M4a);
    assert_eq!(Format::Opus.default_bitrate(), "copy");
    assert_eq!(Format::Mp3.extension(), "mp3");
    assert_eq!(Format::Opus.extension(), "opus");
}

#[test]
fn every_setting_falls_back_through_the_file() {
    let file = FileConfig {
        dest: None,
        format: Some(Format::Opus),
        bitrate: Some("96k".into()),
        genre: Some("Jazz".into()),
        add_to_music: Some(false),
        keep_full: Some(true),
    };
    let cfg = Config::resolve(&file, "/Users/x/Desktop", Some("/d".into()), None, None, None, false, false);
    assert_eq!(cfg.dest, "/d");
    assert_eq!(cfg.format, Format::Opus);
    assert_eq!(cfg.bitrate, "96k");
    assert_eq!(cfg.genre.as_deref(), Some("Jazz"));
    assert!(!cfg.add_to_music);
    assert!(cfg.keep_full);
    let cfg = Config::resolve(
        &file,
        "/Users/x/Desktop",
        Some("/d".into()),
        Some(Format::Mp3),
        Some("192k".into()),
        Some("Rock".into()),
        true,
        false,
    );
    assert_eq!(cfg.format, Format::Mp3);
    assert_eq!(cfg.bitrate, "192k");
    assert_eq!(cfg.genre.as_deref(), Some("Rock"));
    assert!(cfg.add_to_music);
}

#[test]
fn the_config_file_sits_under_the_home_directory() {
    assert_eq!(config_path_in("/home/a"), "/home/a/.config/sleeve/config.toml");
    assert_eq!(config_path_in("/home/a/"), "/home/a/.config/sleeve/config.toml");
}

#[test]
fn the_desktop_wins_then_home_then_the_current_directory() {
    assert_eq!(
        pick_dest(Some("/Users/x/Desktop".to_string()), Some("/Users/x".to_string())),
        "/Users/x/Desktop"
    );
    assert_eq!(pick_dest(None, Some("/home/x".to_string())), "/home/x");
    assert_eq!(pick_dest(None, None), ".");
}

#[test]
fn without_a_flag_or_a_file_entry_the_default_destination_is_used() {
    let cfg = Config::resolve(
        &FileConfig::default(),
        "/Users/x/Desktop",
        None,
        None,
        None,
        None,
        false,
        false,
    );
    assert_eq!(cfg.dest, "/Users/x/Desktop");
}
