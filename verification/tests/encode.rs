use sleeve::config::Format;
use sleeve::encode::{
    codec_args, download_args, encode_args, metadata_args, output_path, tags_for, TrackTags,
};

fn tags() -> TrackTags {
    TrackTags {
        title: "Marsh Light".into(),
        artist: Some("The Band".into()),
        album: "Live Somewhere".into(),
        album_artist: Some("The Band".into()),
        genre: Some("Progressive Rock".into()),
        year: Some(2026),
        comment: Some("Recorded live.".into()),
        track: 17,
        total: 23,
    }
}

// The chapter "Marsh Light" runs from 5528.0 s to 5948.0 s; its cut points
// reach the argv written with three decimals.
fn args_for_default_format() -> Vec<String> {
    encode_args(
        "src.webm",
        Some("cover.jpg"),
        "5528.000",
        "5948.000",
        &tags(),
        Format::M4a,
        Some("opus"),
        "256k",
        "17 - Marsh Light.m4a",
    )
}

fn pair_present(args: &[String], a: &str, b: &str) -> bool {
    args.windows(2).any(|w| w[0] == a && w[1] == b)
}

#[test]
fn every_track_drops_the_sources_chapter_list() {
    // The bug this guards: without it, each track advertises the whole
    // album's chapters and players present it as the full show.
    assert!(pair_present(
        &args_for_default_format(),
        "-map_chapters",
        "-1"
    ));
}

#[test]
fn every_track_starts_from_clean_metadata() {
    assert!(pair_present(
        &args_for_default_format(),
        "-map_metadata",
        "-1"
    ));
}

#[test]
fn seek_precedes_input_for_fast_seeking() {
    let args = args_for_default_format();
    let ss = args.iter().position(|a| a == "-ss").unwrap();
    let i = args.iter().position(|a| a == "-i").unwrap();
    assert!(ss < i, "-ss must come before -i to seek rather than decode");
}

#[test]
fn cut_points_come_from_the_chapter_verbatim() {
    let args = args_for_default_format();
    assert!(pair_present(&args, "-ss", "5528.000"));
    assert!(pair_present(&args, "-to", "5948.000"));
}

#[test]
fn cover_is_mapped_as_an_attached_picture() {
    let args = args_for_default_format();
    assert!(pair_present(&args, "-map", "1:v"));
    assert!(pair_present(&args, "-disposition:v", "attached_pic"));
    assert!(pair_present(&args, "-c:v", "mjpeg"));
}

#[test]
fn opus_output_takes_no_cover_input_at_all() {
    // Ogg cover art is a base64 comment ffmpeg will not write; mapping a
    // video stream into an .opus file just fails.
    let args = encode_args(
        "src.webm",
        Some("cover.jpg"),
        "5528.000",
        "5948.000",
        &tags(),
        Format::Opus,
        Some("opus"),
        "copy",
        "17 - Marsh Light.opus",
    );
    assert!(!pair_present(&args, "-map", "1:v"));
    assert!(!args.iter().any(|a| a == "cover.jpg"));
}

#[test]
fn opus_from_an_opus_source_is_copied_not_re_encoded() {
    let args = codec_args(Format::Opus, Some("opus"), "ignored");
    assert_eq!(args, vec!["-c:a", "copy"]);
}

#[test]
fn opus_from_a_non_opus_source_falls_back_to_encoding() {
    let args = codec_args(Format::Opus, Some("aac"), "ignored");
    assert!(pair_present(&args, "-c:a", "libopus"));
}

#[test]
fn lossy_formats_always_encode_at_the_requested_bitrate() {
    assert!(pair_present(
        &codec_args(Format::M4a, Some("opus"), "256k"),
        "-b:a",
        "256k"
    ));
    assert!(pair_present(
        &codec_args(Format::Mp3, Some("opus"), "320k"),
        "-c:a",
        "libmp3lame"
    ));
}

#[test]
fn faststart_is_mp4_only() {
    assert!(args_for_default_format().contains(&"+faststart".to_string()));

    let mp3 = encode_args(
        "s.webm",
        None,
        "5528.000",
        "5948.000",
        &tags(),
        Format::Mp3,
        Some("opus"),
        "320k",
        "o.mp3",
    );
    assert!(!mp3.contains(&"+faststart".to_string()));
}

#[test]
fn track_and_disc_are_written_as_position_of_total() {
    let args = metadata_args(&tags());
    assert!(args.contains(&"track=17/23".to_string()));
    assert!(args.contains(&"disc=1/1".to_string()));
}

#[test]
fn album_artist_defaults_to_the_artist_so_albums_do_not_fragment() {
    let mut t = tags();
    t.album_artist = None;
    assert!(metadata_args(&t).contains(&"album_artist=The Band".to_string()));
}

#[test]
fn absent_optional_tags_are_omitted_entirely() {
    let t = TrackTags {
        title: "X".into(),
        artist: None,
        album: "A".into(),
        album_artist: None,
        genre: None,
        year: None,
        comment: None,
        track: 1,
        total: 1,
    };
    let args = metadata_args(&t);
    assert!(!args.iter().any(|a| a.starts_with("artist=")));
    assert!(!args.iter().any(|a| a.starts_with("genre=")));
    assert!(!args.iter().any(|a| a.starts_with("date=")));
    // ...but the required ones are still there.
    assert!(args.contains(&"title=X".to_string()));
    assert!(args.contains(&"album=A".to_string()));
}

#[test]
fn output_path_uses_the_formats_extension() {
    let p = output_path("/out", 3, 23, "Slow Ascent", Format::Mp3);
    assert_eq!(p, "/out/03 - Slow Ascent.mp3");
}

#[test]
fn download_does_not_transcode() {
    let args = download_args("https://youtu.be/x", "src.%(ext)s");
    assert!(pair_present(&args, "-f", "bestaudio"));
    // -x / --audio-format would re-encode before we ever cut.
    assert!(!args.iter().any(|a| a == "-x" || a == "--audio-format"));
}

// ---------------------------------------------------------------------------

#[test]
fn the_full_argv_for_one_track() {
    let args = args_for_default_format();
    let expected: Vec<&str> = vec![
        "-v", "error", "-y", "-ss", "5528.000", "-to", "5948.000", "-i", "src.webm", "-i",
        "cover.jpg", "-map", "0:a", "-map", "1:v", "-map_metadata", "-1", "-map_chapters", "-1",
        "-c:a", "aac", "-b:a", "256k", "-c:v", "mjpeg", "-disposition:v", "attached_pic",
        "-metadata", "title=Marsh Light", "-metadata", "artist=The Band", "-metadata",
        "album=Live Somewhere", "-metadata", "album_artist=The Band", "-metadata",
        "genre=Progressive Rock", "-metadata", "date=2026", "-metadata",
        "comment=Recorded live.", "-metadata", "track=17/23", "-metadata", "disc=1/1",
        "-movflags", "+faststart", "17 - Marsh Light.m4a",
    ];
    assert_eq!(args, expected);
}

#[test]
fn a_format_that_cannot_embed_ignores_the_cover_entirely() {
    let with = encode_args(
        "s", Some("c.jpg"), "1.000", "2.000", &tags(), Format::Opus, None, "copy", "o.opus",
    );
    let without = encode_args(
        "s", None, "1.000", "2.000", &tags(), Format::Opus, None, "copy", "o.opus",
    );
    assert_eq!(with, without);
    assert!(pair_present(&with, "-c:a", "libopus"));
    assert!(pair_present(&with, "-b:a", "160k"));
}

#[test]
fn tags_for_shares_the_artist_as_album_artist() {
    let t = tags_for("One", 1, 2, Some("Band"), "Album", None, Some(1999), None);
    assert_eq!(t.title, "One");
    assert_eq!(t.album_artist.as_deref(), Some("Band"));
    assert_eq!(t.artist.as_deref(), Some("Band"));
    assert_eq!(t.year, Some(1999));
    assert_eq!((t.track, t.total), (1, 2));
    let md = metadata_args(&t);
    assert_eq!(
        md,
        vec![
            "-metadata", "title=One", "-metadata", "artist=Band", "-metadata", "album=Album",
            "-metadata", "album_artist=Band", "-metadata", "date=1999", "-metadata",
            "track=1/2", "-metadata", "disc=1/1",
        ]
    );
}

#[test]
fn output_path_joins_like_a_path() {
    assert_eq!(output_path("/out/", 1, 1, "A", Format::M4a), "/out/01 - A.m4a");
    assert_eq!(output_path("", 1, 1, "A", Format::Opus), "01 - A.opus");
}

#[test]
fn codec_and_metadata_arguments_are_unbroken_runs_before_the_output() {
    let tags = tags();
    let codec = codec_args(Format::Mp3, Some("opus"), "320k");
    let meta = metadata_args(&tags);
    let args = encode_args(
        "/w/source.webm",
        None,
        "1.000",
        "2.000",
        &tags,
        Format::Mp3,
        Some("opus"),
        "320k",
        "/o/01.mp3",
    );
    assert_eq!(args[15..15 + codec.len()], codec[..]);
    let q = 15 + codec.len();
    assert_eq!(args[q..q + meta.len()], meta[..]);
    assert_eq!(args.len(), q + meta.len() + 1);
    assert_eq!(args.last().unwrap(), "/o/01.mp3");

    let args = encode_args(
        "/w/source.webm",
        Some("/w/cover.jpg"),
        "1.000",
        "2.000",
        &tags,
        Format::M4a,
        Some("opus"),
        "256k",
        "/o/01.m4a",
    );
    let codec = codec_args(Format::M4a, Some("opus"), "256k");
    assert_eq!(args[19..19 + codec.len()], codec[..]);
    let q = 19 + codec.len() + 4;
    assert_eq!(args[q..q + meta.len()], meta[..]);
    assert_eq!(args[q + meta.len()..], ["-movflags", "+faststart", "/o/01.m4a"]);
}
