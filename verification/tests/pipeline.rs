use sleeve::cli::Cli;
use sleeve::config::{Config, Format};
use sleeve::pipeline::{
    album_dir_path, album_meta, clock_text, codec_name_of, cover_copy_path, full_audio_path,
    least_with_prefix, next_step, outcome_of, plan_outputs, plan_tracks, truncate_display, Outcome, Step,
};

fn cli(url: &str) -> Cli {
    Cli {
        url: url.into(),
        dest: None,
        format: None,
        bitrate: None,
        artist: None,
        album: None,
        year: None,
        genre: None,
        comment: None,
        music: false,
        keep_full: false,
        no_cover: false,
        flat: false,
        dry_run: false,
        list: false,
    }
}

// The video: "The Band - The Album [Full Album]", uploaded 2026-08-07, with
// chapters "One" and "Two".
const TITLE: &str = "The Band - The Album [Full Album]";
const UPLOADED: Option<&str> = Some("20260807");

fn chapter_titles() -> Vec<String> {
    vec!["One".to_string(), "Two".to_string()]
}

#[test]
fn metadata_is_inferred_when_nothing_is_overridden() {
    let meta = album_meta(TITLE, UPLOADED, &cli("u"), None);
    assert_eq!(meta.artist.as_deref(), Some("The Band"));
    assert_eq!(meta.album, "The Album");
    assert_eq!(meta.year, Some(2026));
}

#[test]
fn cli_overrides_beat_inference() {
    let mut cli = cli("u");
    cli.artist = Some("Someone Else".into());
    cli.album = Some("Other".into());
    cli.year = Some(1974);
    let meta = album_meta(TITLE, UPLOADED, &cli, None);
    assert_eq!(meta.artist.as_deref(), Some("Someone Else"));
    assert_eq!(meta.album, "Other");
    assert_eq!(meta.year, Some(1974));
}

#[test]
fn genre_falls_back_to_the_config_file() {
    let meta = album_meta(TITLE, UPLOADED, &cli("u"), Some("Jazz"));
    assert_eq!(meta.genre.as_deref(), Some("Jazz"));

    let mut with_genre = cli("u");
    with_genre.genre = Some("Rock".into());
    let meta = album_meta(TITLE, UPLOADED, &with_genre, Some("Jazz"));
    assert_eq!(meta.genre.as_deref(), Some("Rock"));
}

#[test]
fn every_chapter_becomes_a_numbered_track_sharing_one_album() {
    let meta = album_meta(TITLE, UPLOADED, &cli("u"), None);
    let tracks = plan_tracks(&chapter_titles(), &meta);

    assert_eq!(tracks.len(), 2);
    assert_eq!(tracks[0].track, 1);
    assert_eq!(tracks[1].track, 2);
    assert!(tracks.iter().all(|t| t.total == 2));
    assert!(tracks.iter().all(|t| t.album == "The Album"));
    assert_eq!(tracks[1].title, "Two");
}

#[test]
fn long_titles_are_ellipsised_for_the_listing() {
    let s = truncate_display(&"x".repeat(60), 44);
    assert_eq!(s.chars().count(), 44);
    assert!(s.ends_with('…'));
}

#[test]
fn short_titles_are_left_alone() {
    assert_eq!(truncate_display("Red", 44), "Red");
}

// ---------------------------------------------------------------------------

#[test]
fn durations_render_as_minutes_until_an_hour() {
    assert_eq!(clock_text(59), "0:59");
    assert_eq!(clock_text(60), "1:00");
    assert_eq!(clock_text(746), "12:26");
    assert_eq!(clock_text(3600), "1:00:00");
    assert_eq!(clock_text(8015), "2:13:35");
}

#[test]
fn zero_and_many_hours_render_too() {
    assert_eq!(clock_text(0), "0:00");
    assert_eq!(clock_text(36005), "10:00:05");
}

#[test]
fn the_ellipsis_keeps_within_the_budget() {
    assert_eq!(truncate_display("abcdef", 3), "ab…");
    assert_eq!(truncate_display("abc", 3), "abc");
    assert_eq!(truncate_display("ab", 0), "…");
    assert_eq!(truncate_display("", 0), "");
    assert_eq!(truncate_display("abc", 0), "…");
}

#[test]
fn a_video_without_an_upload_date_has_no_year() {
    let meta = album_meta("T", None, &cli("u"), None);
    assert_eq!(meta.year, None);
    assert_eq!(meta.artist, None);
    assert_eq!(meta.album, "T");
    assert_eq!(meta.comment, None);
}

#[test]
fn the_default_outcome_is_empty() {
    let o = Outcome::default();
    assert!(o.tracks.is_empty());
    assert!(o.cover.is_none());
    assert_eq!(o.added_to_music, 0);
    assert_eq!(o.album_dir, "");
}

#[test]
fn the_codec_name_is_the_first_line_of_ffprobes_answer() {
    assert_eq!(codec_name_of("opus\n"), Some("opus".to_string()));
    assert_eq!(codec_name_of("  aac  \r\nsecond\n"), Some("aac".to_string()));
    assert_eq!(codec_name_of(""), None);
    assert_eq!(codec_name_of("   \nopus"), None);
}

fn config(format: Format, keep_full: bool, add_to_music: bool) -> Config {
    Config {
        dest: "/out".to_string(),
        format,
        bitrate: "256k".to_string(),
        genre: None,
        add_to_music,
        keep_full,
    }
}

/// Every step a run takes after the listing, given whether a cover gets built.
fn steps(c: &Cli, cfg: &Config, n: usize, cover: bool) -> Vec<Step> {
    let mut out = Vec::new();
    let mut step = Step::Probe;
    let mut built = false;
    loop {
        step = next_step(c, cfg, n, step, built);
        out.push(step);
        if step == Step::BuildCover {
            built = cover;
        }
        if step == Step::Stop || step == Step::Finish {
            return out;
        }
    }
}

#[test]
fn a_listing_run_stops_before_downloading() {
    let mut c = cli("u");
    c.list = true;
    assert_eq!(steps(&c, &config(Format::M4a, true, true), 2, true), vec![Step::Stop]);
}

#[test]
fn a_dry_run_previews_then_stops() {
    let mut c = cli("u");
    c.dry_run = true;
    assert_eq!(
        steps(&c, &config(Format::M4a, true, true), 2, true),
        vec![Step::Preview, Step::Stop]
    );
}

#[test]
fn a_full_run_writes_every_track_in_order() {
    let c = cli("u");
    assert_eq!(
        steps(&c, &config(Format::M4a, false, false), 3, true),
        vec![
            Step::Download,
            Step::BuildCover,
            Step::MakeAlbumDir,
            Step::WriteTrack(0),
            Step::WriteTrack(1),
            Step::WriteTrack(2),
            Step::Finish,
        ]
    );
}

#[test]
fn an_opus_run_copies_the_cover_and_skips_apple_music() {
    let c = cli("u");
    assert_eq!(
        steps(&c, &config(Format::Opus, true, true), 1, true),
        vec![
            Step::Download,
            Step::BuildCover,
            Step::MakeAlbumDir,
            Step::WriteTrack(0),
            Step::CopyCover,
            Step::KeepFull,
            Step::SkipMusic,
            Step::Finish,
        ]
    );
}

#[test]
fn no_cover_skips_the_art_and_a_failed_cover_is_not_copied() {
    let mut c = cli("u");
    c.no_cover = true;
    assert_eq!(
        steps(&c, &config(Format::Mp3, false, true), 1, true),
        vec![
            Step::Download,
            Step::MakeAlbumDir,
            Step::WriteTrack(0),
            Step::AddToMusic,
            Step::Finish,
        ]
    );
    let c = cli("u");
    assert_eq!(
        steps(&c, &config(Format::Opus, false, false), 1, false),
        vec![
            Step::Download,
            Step::BuildCover,
            Step::MakeAlbumDir,
            Step::WriteTrack(0),
            Step::Finish,
        ]
    );
}

#[test]
fn the_album_folder_sits_in_the_destination_unless_flat() {
    let mut c = cli("u");
    assert_eq!(
        album_dir_path(&c, "/out", "The Album", Some("The Band")),
        "/out/The Band - The Album"
    );
    c.flat = true;
    assert_eq!(album_dir_path(&c, "/out", "The Album", Some("The Band")), "/out");
}

#[test]
fn the_cover_copy_and_the_full_audio_are_named_inside_the_album() {
    assert_eq!(cover_copy_path("/out/A"), "/out/A/cover.jpg");
    assert_eq!(
        full_audio_path("/out/A", "Live 8/7/26 [Full Show]", Some("webm")),
        "/out/A/Live 8-7-26 [Full Show].webm"
    );
    assert_eq!(full_audio_path("/out/A", "T", None), "/out/A/T.audio");
}

#[test]
fn the_outcome_reports_the_copied_cover_and_the_imported_tracks() {
    let tracks = vec!["/out/A/01 - One.opus".to_string(), "/out/A/02 - Two.opus".to_string()];
    let r = outcome_of("/out/A", &tracks, true, Format::Opus, true);
    assert_eq!(r.album_dir, "/out/A");
    assert_eq!(r.tracks, tracks);
    assert_eq!(r.cover.as_deref(), Some("/out/A/cover.jpg"));
    assert_eq!(r.added_to_music, 0);

    let r = outcome_of("/out/A", &tracks, false, Format::M4a, true);
    assert_eq!(r.cover, None);
    assert_eq!(r.added_to_music, 2);

    let r = outcome_of("/out/A", &tracks, true, Format::M4a, false);
    assert_eq!(r.cover, None);
    assert_eq!(r.added_to_music, 0);
}

#[test]
fn the_first_matching_name_by_sort_order_is_picked() {
    let names = vec![
        "thumb.jpg".to_string(),
        "source.webm".to_string(),
        "source.m4a".to_string(),
        "sources".to_string(),
    ];
    assert_eq!(least_with_prefix(&names, "source."), Some(2));
    assert_eq!(least_with_prefix(&names, "thumb."), Some(0));
    assert_eq!(least_with_prefix(&names, "cover."), None);
    assert_eq!(least_with_prefix(&Vec::new(), "source."), None);
    // A shorter name sorts before a longer one that it begins.
    let names = vec!["source.ab".to_string(), "source.a".to_string()];
    assert_eq!(least_with_prefix(&names, "source."), Some(1));
}

#[test]
fn every_chapter_gets_its_numbered_file_in_the_album_folder() {
    let titles = vec!["One".to_string(), "Two/Three".to_string()];
    assert_eq!(
        plan_outputs("/out/The Band - The Album", &titles, Format::Opus),
        vec![
            "/out/The Band - The Album/01 - One.opus".to_string(),
            "/out/The Band - The Album/02 - Two-Three.opus".to_string(),
        ]
    );
    assert!(plan_outputs("/out", &Vec::new(), Format::M4a).is_empty());
}
