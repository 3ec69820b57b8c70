//! The decisions of a run: album facts after overrides, the track plan, the
//! order of its steps, what it reports, and how the listing is shown.
use vstd::prelude::*;
use crate::cli::{album_dir_of, Cli};
use crate::config::{embeds_cover, format_extension, music_importable, Config, Format};
use crate::cover::first_line;
use crate::encode::{output_path, tags_for, tags_spec, TagsView, TrackTags};
use crate::naming::{
    infer_spec, infer_tags, lemma_dec_reads_back, lemma_leading_zeros_read_as_nothing,
    lemma_sorts_before_irreflexive, lemma_sorts_before_transitive, safe_stem,
    sorts_before, stem_of, track_filename_of, zero_pad,
};
use crate::probe::{upload_year, year_of};
use crate::text::{
    all_digits, chars_of, copy_opt, dec, digit_char, digits_value, join, lemma_dec_len, join_path, lines_of, opt_chars, opt_str, owned, owned_opt,
    occurs, occurs_at, push_all, push_arg, push_dec, push_str, seqs_of, slice, string_of, strs, trim, trim_ws,
};

verus! {

/// What a run produced.
#[derive(Debug)]
pub struct Outcome {
    pub album_dir: String,
    pub tracks: Vec<String>,
    pub cover: Option<String>,
    pub added_to_music: usize,
}

impl Default for Outcome {
    fn default() -> (r: Self)
        ensures
            r.album_dir@ == Seq::<char>::empty(),
            r.tracks@.len() == 0,
            r.cover is None,
            r.added_to_music == 0,
    {
        Outcome { album_dir: String::new(), tracks: Vec::new(), cover: None, added_to_music: 0 }
    }
}

/// Album-level facts, after command-line overrides are applied to the inferred guess.
#[derive(Debug, Clone, PartialEq)]
pub struct AlbumMeta {
    pub artist: Option<String>,
    pub album: String,
    pub year: Option<u16>,
    pub genre: Option<String>,
    pub comment: Option<String>,
}

/// The first of two optional values that is present.
pub open spec fn or_else<T>(a: Option<T>, b: Option<T>) -> Option<T> {
    match a {
        Some(x) => Some(x),
        None => b,
    }
}

/// Combine what the video says with what the user overrode: `video_title`
/// and `upload_date` come from the video, `genre` from the config file.
///
/// Split out and pure so the precedence is testable without a network.
pub fn album_meta(
    video_title: &str,
    upload_date: Option<&str>,
    cli: &Cli,
    genre: Option<&str>,
) -> (r: AlbumMeta)
    ensures
        opt_chars(r.artist) == or_else(opt_chars(cli.artist), infer_spec(video_title@).0),
        r.album@ == (match cli.album {
            Some(a) => a@,
            None => infer_spec(video_title@).1,
        }),
        r.year == or_else(
            cli.year,
            match upload_date {
                Some(d) => year_of(d@),
                None => None,
            },
        ),
        opt_chars(r.genre) == or_else(opt_chars(cli.genre), opt_str(genre)),
        opt_chars(r.comment) == opt_chars(cli.comment),
{
    let inferred = infer_tags(video_title);
    let artist = match &cli.artist {
        Some(a) => Some(owned(a.as_str())),
        None => inferred.artist,
    };
    let album = match &cli.album {
        Some(a) => owned(a.as_str()),
        None => inferred.album,
    };
    let year = match cli.year {
        Some(y) => Some(y),
        None => upload_year(upload_date),
    };
    let genre = match &cli.genre {
        Some(g) => Some(owned(g.as_str())),
        None => owned_opt(genre),
    };
    AlbumMeta { artist, album, year, genre, comment: copy_opt(&cli.comment) }
}

/// The tags planned for the chapter titled `title`, track `index` of `total`.
pub open spec fn planned(title: Seq<char>, index: nat, total: nat, meta: AlbumMeta) -> TagsView {
    tags_spec(
        title,
        index,
        total,
        opt_chars(meta.artist),
        meta.album@,
        opt_chars(meta.genre),
        meta.year,
        opt_chars(meta.comment),
    )
}

fn as_str_opt(o: &Option<String>) -> (r: Option<&str>)
    ensures
        opt_str(r) == opt_chars(*o),
{
    match o {
        Some(s) => Some(s.as_str()),
        None => None,
    }
}

/// Tags for every chapter, in order: chapter `i` becomes track `i + 1` of
/// `titles.len()`, and every track shares the album's facts.
pub fn plan_tracks(titles: &Vec<String>, meta: &AlbumMeta) -> (r: Vec<TrackTags>)
    ensures
        r.len() == titles.len(),
        forall|i: int|
            0 <= i < r.len() ==> #[trigger] r@[i]@ == planned(
                titles@[i]@,
                (i + 1) as nat,
                titles.len() as nat,
                *meta,
            ),
{
    let total = titles.len();
    let mut out: Vec<TrackTags> = Vec::new();
    let mut i: usize = 0;
    while i < total
        invariant
            total == titles.len(),
            i <= total,
            out.len() == i,
            forall|j: int|
                0 <= j < out.len() ==> #[trigger] out@[j]@ == planned(
                    titles@[j]@,
                    (j + 1) as nat,
                    total as nat,
                    *meta,
                ),
        decreases total - i,
    {
        let t = tags_for(
            titles[i].as_str(),
            i + 1,
            total,
            as_str_opt(&meta.artist),
            meta.album.as_str(),
            as_str_opt(&meta.genre),
            meta.year,
            as_str_opt(&meta.comment),
        );
        out.push(t);
        i = i + 1;
    }
    out
}

/// `s` shortened for the listing: at most `max` characters, the last of them
/// an ellipsis when anything had to go.
pub open spec fn display_of(s: Seq<char>, max: nat) -> Seq<char> {
    if s.len() <= max {
        s
    } else {
        s.take(if max >= 1 {
            max - 1
        } else {
            0
        }).push('…')
    }
}

/// A title shortened to `max` characters for the listing.
pub fn truncate_display(s: &str, max: usize) -> (r: String)
    ensures
        r@ == display_of(s@, max as nat),
{
    let v = chars_of(s);
    if v.len() <= max {
        return owned(s);
    }
    let keep: usize = if max >= 1 {
        max - 1
    } else {
        0
    };
    let mut kept = slice(&v, 0, keep);
    kept.push('…');
    string_of(&kept)
}

/// A shortened title never exceeds its budget, and one that fits is left alone.
pub proof fn law_display_fits(s: Seq<char>, max: nat)
    requires
        max >= 1,
    ensures
        display_of(s, max).len() <= max,
        s.len() <= max ==> display_of(s, max) == s,
        s.len() > max ==> display_of(s, max).len() == max && display_of(s, max).last() == '…',
{
}

/// `seconds` as `m:ss`, or `h:mm:ss` past an hour.
pub open spec fn clock_of(seconds: nat) -> Seq<char> {
    let h = seconds / 3600;
    let m = (seconds % 3600) / 60;
    let s = seconds % 60;
    if h > 0 {
        dec(h) + ":"@ + zero_pad(dec(m), 2) + ":"@ + zero_pad(dec(s), 2)
    } else {
        dec(m) + ":"@ + zero_pad(dec(s), 2)
    }
}

proof fn lemma_two_digits_read_back(k: nat)
    requires
        k < 100,
    ensures
        zero_pad(dec(k), 2).len() == 2,
        all_digits(zero_pad(dec(k), 2)),
        digits_value(zero_pad(dec(k), 2)) == k,
{
    lemma_dec_reads_back(k);
    if k < 10 {
        lemma_leading_zeros_read_as_nothing(1, dec(k));
    } else {
        assert(dec(k) == dec(k / 10).push(digit_char(k % 10)));
        assert(dec(k / 10).len() == 1);
    }
}

/// The clock text reads back as the duration: the seconds field is always
/// two digits and reads as `seconds % 60`, after a `:`. Past an hour the
/// minutes field is two digits too, reading as the minutes within the hour,
/// after the hours; under an hour everything before the seconds is the whole
/// minutes.
pub proof fn law_clock_fields_read_back(n: nat)
    ensures
        ({
            let s = clock_of(n);
            let l = s.len();
            &&& l >= 4
            &&& s[l - 3] == ':'
            &&& all_digits(s.skip(l - 2))
            &&& digits_value(s.skip(l - 2)) == n % 60
            &&& n >= 3600 ==> {
                &&& l >= 7
                &&& s[l - 6] == ':'
                &&& all_digits(s.subrange(l - 5, l - 3))
                &&& digits_value(s.subrange(l - 5, l - 3)) == (n % 3600) / 60
                &&& all_digits(s.take(l - 6))
                &&& digits_value(s.take(l - 6)) == n / 3600
            }
            &&& n < 3600 ==> all_digits(s.take(l - 3)) && digits_value(s.take(l - 3)) == n / 60
        }),
{
    let h = n / 3600;
    let m = (n % 3600) / 60;
    let sec = n % 60;
    let s = clock_of(n);
    let l = s.len();
    lemma_two_digits_read_back(sec);
    lemma_two_digits_read_back(m);
    lemma_dec_len(h);
    lemma_dec_len(m);
    let ss = zero_pad(dec(sec), 2);
    if h > 0 {
        lemma_dec_reads_back(h);
        let mm = zero_pad(dec(m), 2);
        assert(s == dec(h) + ":"@ + mm + ":"@ + ss);
        reveal_strlit(":");
        assert(s.skip(l - 2) =~= ss);
        assert(s.subrange(l - 5, l - 3) =~= mm);
        assert(s.take(l - 6) =~= dec(h));
        assert(s[l - 3] == ':');
        assert(s[l - 6] == ':');
    } else {
        lemma_dec_reads_back(m);
        assert(m == n / 60);
        assert(s == dec(m) + ":"@ + ss);
        reveal_strlit(":");
        assert(s.skip(l - 2) =~= ss);
        assert(s.take(l - 3) =~= dec(m));
        assert(s[l - 3] == ':');
    }
}

fn push_two_digits(out: &mut Vec<char>, n: u64)
    requires
        n < 100,
    ensures
        final(out)@ == old(out)@ + zero_pad(dec(n as nat), 2),
{
    if n < 10 {
        out.push('0');
        push_dec(out, n);
        assert(final(out)@ =~= old(out)@ + zero_pad(dec(n as nat), 2));
    } else {
        push_dec(out, n);
        assert(dec(n as nat).len() == 2) by {
            assert(dec((n / 10) as nat).len() == 1);
        }
    }
}

/// A whole number of seconds as `m:ss`, or `h:mm:ss` past an hour.
pub fn clock_text(seconds: u64) -> (r: String)
    ensures
        r@ == clock_of(seconds as nat),
{
    let h = seconds / 3600;
    let m = (seconds % 3600) / 60;
    let s = seconds % 60;
    let mut out: Vec<char> = Vec::new();
    if h > 0 {
        push_dec(&mut out, h);
        push_str(&mut out, ":");
        push_two_digits(&mut out, m);
        push_str(&mut out, ":");
        push_two_digits(&mut out, s);
    } else {
        push_dec(&mut out, m);
        push_str(&mut out, ":");
        push_two_digits(&mut out, s);
    }
    string_of(&out)
}

/// The codec name in what `ffprobe -show_entries stream=codec_name` printed:
/// its first line, trimmed, unless that is empty.
pub open spec fn codec_name_in(output: Seq<char>) -> Option<Seq<char>> {
    let name = trim(first_line(output));
    if name.len() > 0 {
        Some(name)
    } else {
        None
    }
}

/// The codec of a media file's first audio stream, read out of ffprobe's answer.
pub fn codec_name_of(ffprobe_output: &str) -> (r: Option<String>)
    ensures
        opt_chars(r) == codec_name_in(ffprobe_output@),
{
    let text = chars_of(ffprobe_output);
    let ls = lines_of(&text);
    let first: Vec<char> = if ls.len() > 0 {
        assert(ls@[0]@ == seqs_of(ls@)[0]);
        slice(&ls[0], 0, ls[0].len())
    } else {
        Vec::new()
    };
    assert(first@ =~= first_line(ffprobe_output@));
    let name = trim_ws(&first);
    if name.len() > 0 {
        Some(string_of(&name))
    } else {
        None
    }
}

// ---------------------------------------------------------------------------
// The run, as a sequence of steps
// ---------------------------------------------------------------------------

/// One step of a run. The caller performs a step, then asks `next_step` what
/// comes after it; every decision of the run is made there.
#[derive(Debug, Clone, Copy, PartialEq, Eq, Structural)]
pub enum Step {
    /// Read the chapters and print the listing.
    Probe,
    /// Dry run: say where the tracks would be written.
    Preview,
    /// Download the source audio, once, for every track.
    Download,
    /// Fetch the thumbnail and render square cover art.
    BuildCover,
    /// Create the album folder.
    MakeAlbumDir,
    /// Cut and encode the track at this position (counting from 0).
    WriteTrack(usize),
    /// Copy the cover beside the tracks, for a format that cannot embed it.
    CopyCover,
    /// Keep the un-split full-length audio beside the tracks.
    KeepFull,
    /// Hand the finished tracks to Apple Music.
    AddToMusic,
    /// Say that Apple Music does not import the format, and skip the import.
    SkipMusic,
    /// Stop before anything is downloaded or written: the outcome is empty.
    Stop,
    /// Done: report what was written.
    Finish,
}

/// What follows the import decision: the import, the note that it is
/// skipped, or the end.
pub open spec fn music_step(cfg: Config) -> Step {
    if cfg.add_to_music {
        if music_importable(cfg.format) {
            Step::AddToMusic
        } else {
            Step::SkipMusic
        }
    } else {
        Step::Finish
    }
}

/// What follows the cover copy: keeping the full audio, if asked for.
pub open spec fn after_copy(cfg: Config) -> Step {
    if cfg.keep_full {
        Step::KeepFull
    } else {
        music_step(cfg)
    }
}

/// What follows the last track: the cover copy, when there is a cover that
/// the format cannot embed.
pub open spec fn after_tracks(cfg: Config, cover_built: bool) -> Step {
    if cover_built && !embeds_cover(cfg.format) {
        Step::CopyCover
    } else {
        after_copy(cfg)
    }
}

/// The step after `done`, for a run of `n` tracks; `cover_built` says whether
/// cover art was made.
pub open spec fn step_after(cli: Cli, cfg: Config, n: nat, done: Step, cover_built: bool) -> Step {
    match done {
        Step::Probe => if cli.list {
            Step::Stop
        } else if cli.dry_run {
            Step::Preview
        } else {
            Step::Download
        },
        Step::Preview => Step::Stop,
        Step::Download => if cli.no_cover {
            Step::MakeAlbumDir
        } else {
            Step::BuildCover
        },
        Step::BuildCover => Step::MakeAlbumDir,
        Step::MakeAlbumDir => if n > 0 {
            Step::WriteTrack(0)
        } else {
            after_tracks(cfg, cover_built)
        },
        Step::WriteTrack(i) => if i + 1 < n {
            Step::WriteTrack((i + 1) as usize)
        } else {
            after_tracks(cfg, cover_built)
        },
        Step::CopyCover => after_copy(cfg),
        Step::KeepFull => music_step(cfg),
        Step::AddToMusic => Step::Finish,
        Step::SkipMusic => Step::Finish,
        Step::Stop => Step::Stop,
        Step::Finish => Step::Finish,
    }
}

fn music_step_of(cfg: &Config) -> (r: Step)
    ensures
        r == music_step(*cfg),
{
    if cfg.add_to_music {
        if cfg.format.importable_by_music_app() {
            Step::AddToMusic
        } else {
            Step::SkipMusic
        }
    } else {
        Step::Finish
    }
}

fn after_copy_of(cfg: &Config) -> (r: Step)
    ensures
        r == after_copy(*cfg),
{
    if cfg.keep_full {
        Step::KeepFull
    } else {
        music_step_of(cfg)
    }
}

fn after_tracks_of(cfg: &Config, cover_built: bool) -> (r: Step)
    ensures
        r == after_tracks(*cfg, cover_built),
{
    if cover_built && !cfg.format.supports_embedded_cover() {
        Step::CopyCover
    } else {
        after_copy_of(cfg)
    }
}

/// What a run does after `done`, for `n_tracks` chapters; `cover_built` says
/// whether cover art was made (a failed or skipped cover is `false`).
///
/// `--list` stops after the listing and `--dry-run` after saying where the
/// tracks would go, before anything is downloaded; a cover is built unless
/// `--no-cover`, and a cover that failed costs nothing but the art; each
/// track is written once, in order; the cover is copied beside the tracks
/// only when the format cannot embed it; Apple Music gets the tracks only
/// when asked to and able to import the format.
pub fn next_step(cli: &Cli, cfg: &Config, n_tracks: usize, done: Step, cover_built: bool) -> (r:
    Step)
    ensures
        r == step_after(*cli, *cfg, n_tracks as nat, done, cover_built),
        done is Probe ==> ((cli.list || cli.dry_run) <==> (r is Stop || r is Preview)),
        r is BuildCover ==> !cli.no_cover,
        r is CopyCover ==> cover_built && !embeds_cover(cfg.format),
        r is KeepFull ==> cfg.keep_full,
        r is AddToMusic ==> cfg.add_to_music && music_importable(cfg.format),
        r is SkipMusic ==> cfg.add_to_music && !music_importable(cfg.format),
        r matches Step::WriteTrack(i) ==> i < n_tracks,
{
    match done {
        Step::Probe => if cli.list {
            Step::Stop
        } else if cli.dry_run {
            Step::Preview
        } else {
            Step::Download
        },
        Step::Preview => Step::Stop,
        Step::Download => if cli.no_cover {
            Step::MakeAlbumDir
        } else {
            Step::BuildCover
        },
        Step::BuildCover => Step::MakeAlbumDir,
        Step::MakeAlbumDir => if n_tracks > 0 {
            Step::WriteTrack(0)
        } else {
            after_tracks_of(cfg, cover_built)
        },
        Step::WriteTrack(i) => if i < n_tracks && n_tracks - i > 1 {
            Step::WriteTrack(i + 1)
        } else {
            after_tracks_of(cfg, cover_built)
        },
        Step::CopyCover => after_copy_of(cfg),
        Step::KeepFull => music_step_of(cfg),
        Step::AddToMusic => Step::Finish,
        Step::SkipMusic => Step::Finish,
        Step::Stop => Step::Stop,
        Step::Finish => Step::Finish,
    }
}

/// `--list` and `--dry-run` download and write nothing: after the listing a
/// run goes only to the dry-run preview and then stops, and a stopped run
/// stays stopped.
pub proof fn law_list_and_dry_run_write_nothing(cli: Cli, cfg: Config, n: nat, cover_built: bool)
    requires
        cli.list || cli.dry_run,
    ensures
        ({
            let s1 = step_after(cli, cfg, n, Step::Probe, cover_built);
            &&& s1 is Stop || s1 is Preview
            &&& cli.list ==> s1 is Stop
            &&& step_after(cli, cfg, n, s1, cover_built) is Stop
        }),
        step_after(cli, cfg, n, Step::Stop, cover_built) is Stop,
{
}

/// A run that goes ahead writes every track once, in order: the first after
/// the album folder is made, each next one after the one before, and none
/// after the last.
pub proof fn law_tracks_are_written_once_in_order(
    cli: Cli,
    cfg: Config,
    n: nat,
    i: usize,
    cover_built: bool,
)
    ensures
        n > 0 ==> step_after(cli, cfg, n, Step::MakeAlbumDir, cover_built) == Step::WriteTrack(0),
        i + 1 < n ==> step_after(cli, cfg, n, Step::WriteTrack(i), cover_built) == Step::WriteTrack(
            (i + 1) as usize,
        ),
        i + 1 >= n ==> !(step_after(cli, cfg, n, Step::WriteTrack(i), cover_built) is WriteTrack),
{
}

/// The cover is best-effort: whether or not it was built, the run goes on to
/// the album folder, and a cover is never copied beside tracks that embed it.
pub proof fn law_a_missing_cover_is_not_fatal(cli: Cli, cfg: Config, n: nat, done: Step, cover_built: bool)
    ensures
        step_after(cli, cfg, n, Step::BuildCover, cover_built) == Step::MakeAlbumDir,
        embeds_cover(cfg.format) ==> step_after(cli, cfg, n, done, cover_built) != Step::CopyCover,
        !cover_built ==> step_after(cli, cfg, n, done, cover_built) != Step::CopyCover,
{
}

/// The album folder inside `dest`: `dest` itself when `flat`.
pub open spec fn album_dir_spec(
    flat: bool,
    dest: Seq<char>,
    album: Seq<char>,
    artist: Option<Seq<char>>,
) -> Seq<char> {
    if flat {
        dest
    } else {
        join_path(dest, album_dir_of(album, artist))
    }
}

/// The album folder a run writes into: the destination itself with
/// `--flat`, else the album's folder inside it.
pub fn album_dir_path(cli: &Cli, dest: &str, album: &str, artist: Option<&str>) -> (r: String)
    ensures
        r@ == album_dir_spec(cli.flat, dest@, album@, opt_str(artist)),
{
    match cli.album_dir_name(album, artist) {
        Some(name) => join(dest, name.as_str()),
        None => owned(dest),
    }
}

/// Where the cover is copied for a format that cannot embed it.
pub fn cover_copy_path(album_dir: &str) -> (r: String)
    ensures
        r@ == join_path(album_dir@, "cover.jpg"@),
{
    join(album_dir, "cover.jpg")
}

/// Where the full-length audio is kept: named after the video, with the
/// source's extension, or `audio` when it has none.
pub fn full_audio_path(album_dir: &str, video_title: &str, extension: Option<&str>) -> (r: String)
    ensures
        r@ == join_path(
            album_dir@,
            stem_of(video_title@) + "."@ + (match extension {
                Some(e) => e@,
                None => "audio"@,
            }),
        ),
{
    let mut name = chars_of(safe_stem(video_title).as_str());
    push_str(&mut name, ".");
    match extension {
        Some(e) => push_str(&mut name, e),
        None => push_str(&mut name, "audio"),
    }
    let file = string_of(&name);
    join(album_dir, file.as_str())
}

/// The cover a run reports: the copy beside the tracks, when one was made
/// for a format that cannot embed art.
pub open spec fn reported_cover(album_dir: Seq<char>, cover_copied: bool, format: Format) -> Option<
    Seq<char>,
> {
    if cover_copied && !embeds_cover(format) {
        Some(join_path(album_dir, "cover.jpg"@))
    } else {
        None
    }
}

/// What a finished run reports: its album folder and tracks, the cover copied
/// beside them (`cover_copied` says whether that copy succeeded), and how many
/// tracks went to Apple Music, which is all of them when the import was asked
/// for and the format is importable, else none.
pub fn outcome_of(
    album_dir: &str,
    tracks: &Vec<String>,
    cover_copied: bool,
    format: Format,
    add: bool,
) -> (r: Outcome)
    ensures
        r.album_dir@ == album_dir@,
        strs(r.tracks@) == strs(tracks@),
        opt_chars(r.cover) == reported_cover(album_dir@, cover_copied, format),
        r.added_to_music == (if add && music_importable(format) {
            tracks.len()
        } else {
            0
        }),
{
    let mut copied: Vec<String> = Vec::new();
    let mut i: usize = 0;
    while i < tracks.len()
        invariant
            i <= tracks.len(),
            strs(copied@) == strs(tracks@.take(i as int)),
        decreases tracks.len() - i,
    {
        push_arg(&mut copied, tracks[i].as_str());
        assert(strs(tracks@.take(i + 1)) =~= strs(tracks@.take(i as int)).push(tracks@[i as int]@));
        i = i + 1;
    }
    assert(tracks@.take(tracks.len() as int) =~= tracks@);
    let cover = if cover_copied && !format.supports_embedded_cover() {
        Some(cover_copy_path(album_dir))
    } else {
        None
    };
    let added = if add && format.importable_by_music_app() {
        tracks.len()
    } else {
        0
    };
    Outcome { album_dir: owned(album_dir), tracks: copied, cover, added_to_music: added }
}

/// Whether `s` starts with `prefix`.
pub open spec fn has_prefix(s: Seq<char>, prefix: Seq<char>) -> bool {
    occurs_at(s, prefix, 0)
}

fn sorts_before_exec(a: &Vec<char>, b: &Vec<char>) -> (r: bool)
    ensures
        r == sorts_before(a@, b@),
{
    let mut k: usize = 0;
    while k < a.len() && k < b.len() && a[k] == b[k]
        invariant
            k <= a.len(),
            k <= b.len(),
            a@.take(k as int) == b@.take(k as int),
        decreases a.len() - k,
    {
        assert(a@.take(k + 1) =~= a@.take(k as int).push(a@[k as int]));
        assert(b@.take(k + 1) =~= b@.take(k as int).push(b@[k as int]));
        k = k + 1;
    }
    if k < a.len() && k < b.len() {
        let lt = a[k] < b[k];
        proof {
            let ki = k as int;
            if !lt {
                assert forall|j: int|
                    0 <= j < a@.len() && j < b@.len() && a@.take(j) == b@.take(j) implies !(a@[j]
                    < b@[j]) by {
                    if j < ki {
                        assert(a@.take(ki)[j] == b@.take(ki)[j]);
                    } else if j > ki {
                        assert(a@.take(j)[ki] == b@.take(j)[ki]);
                    }
                }
                if a@.len() < b@.len() && a@ == b@.take(a@.len() as int) {
                    assert(a@[ki] == b@[ki]);
                }
            } else {
                assert(a@.take(ki) == b@.take(ki) && a@[ki] < b@[ki]);
            }
        }
        lt
    } else {
        proof {
            let ki = k as int;
            assert forall|j: int|
                0 <= j < a@.len() && j < b@.len() && a@.take(j) == b@.take(j) implies !(a@[j] < b@[j]) by {
                assert(a@.take(ki)[j] == b@.take(ki)[j]);
            }
            if a@.len() < b@.len() {
                assert(a@ =~= a@.take(ki));
            }
        }
        a.len() < b.len()
    }
}

/// Among `names`, the position of the one that sorts first of those that
/// start with `prefix`, or `None` when none does.
pub fn least_with_prefix(names: &Vec<String>, prefix: &str) -> (r: Option<usize>)
    ensures
        r is None <==> forall|i: int|
            0 <= i < names.len() ==> !has_prefix(#[trigger] names@[i]@, prefix@),
        r matches Some(i) ==> {
            &&& i < names.len()
            &&& has_prefix(names@[i as int]@, prefix@)
            &&& forall|j: int|
                0 <= j < names.len() && has_prefix(#[trigger] names@[j]@, prefix@) ==> !sorts_before(
                    names@[j]@,
                    names@[i as int]@,
                )
        },
{
    let p = chars_of(prefix);
    let mut best: Option<usize> = None;
    let mut best_chars: Vec<char> = Vec::new();
    let mut i: usize = 0;
    while i < names.len()
        invariant
            i <= names.len(),
            p@ == prefix@,
            best is None <==> forall|j: int| 0 <= j < i ==> !has_prefix(#[trigger] names@[j]@, prefix@),
            best matches Some(b) ==> {
                &&& b < i
                &&& best_chars@ == names@[b as int]@
                &&& has_prefix(names@[b as int]@, prefix@)
                &&& forall|j: int|
                    0 <= j < i && has_prefix(#[trigger] names@[j]@, prefix@) ==> !sorts_before(
                        names@[j]@,
                        names@[b as int]@,
                    )
            },
        decreases names.len() - i,
    {
        let name = chars_of(names[i].as_str());
        if occurs(&name, &p, 0) {
            match best {
                None => {
                    proof {
                        lemma_sorts_before_irreflexive(name@);
                    }
                    best = Some(i);
                    best_chars = name;
                },
                Some(b) => {
                    if sorts_before_exec(&name, &best_chars) {
                        proof {
                            lemma_sorts_before_irreflexive(name@);
                            assert forall|j: int|
                                0 <= j < i + 1 && has_prefix(#[trigger] names@[j]@, prefix@)
                                    implies !sorts_before(names@[j]@, name@) by {
                                if j < i && sorts_before(names@[j]@, name@) {
                                    lemma_sorts_before_transitive(
                                        names@[j]@,
                                        name@,
                                        names@[b as int]@,
                                    );
                                }
                            }
                        }
                        best = Some(i);
                        best_chars = name;
                    }
                },
            }
        }
        i = i + 1;
    }
    best
}

/// The file each chapter is written to: chapter `i` of the titles becomes
/// track `i + 1` in `dir`.
pub open spec fn planned_outputs(dir: Seq<char>, titles: Seq<Seq<char>>, format: Format) -> Seq<
    Seq<char>,
> {
    Seq::new(
        titles.len(),
        |i: int|
            join_path(
                dir,
                track_filename_of((i + 1) as nat, titles.len(), titles[i], format_extension(format)),
            ),
    )
}

/// The file of every track of the run, in order.
pub fn plan_outputs(dir: &str, titles: &Vec<String>, format: Format) -> (r: Vec<String>)
    ensures
        strs(r@) == planned_outputs(dir@, strs(titles@), format),
{
    let n = titles.len();
    let mut out: Vec<String> = Vec::new();
    let mut i: usize = 0;
    while i < n
        invariant
            n == titles.len(),
            i <= n,
            strs(out@) == planned_outputs(dir@, strs(titles@), format).take(i as int),
        decreases n - i,
    {
        let path = output_path(dir, i + 1, n, titles[i].as_str(), format);
        let ghost before = out@;
        out.push(path);
        assert(strs(out@) =~= strs(before).push(path@));
        assert(planned_outputs(dir@, strs(titles@), format).take(i + 1) =~= planned_outputs(
            dir@,
            strs(titles@),
            format,
        ).take(i as int).push(path@));
        i = i + 1;
    }
    assert(planned_outputs(dir@, strs(titles@), format).take(n as int) =~= planned_outputs(
        dir@,
        strs(titles@),
        format,
    ));
    out
}

/// Where a run stands when every step so far succeeded: the step just taken,
/// the track files written so far, and whether the cover was copied beside
/// them.
pub struct RunTrace {
    pub step: Step,
    pub written: Seq<Seq<char>>,
    pub cover_copied: bool,
}

/// One more step of a run whose track files are `outs`: the step that
/// follows, the file that a track step writes, and the cover copy.
pub open spec fn run_advance(
    cli: Cli,
    cfg: Config,
    outs: Seq<Seq<char>>,
    cover_built: bool,
    t: RunTrace,
) -> RunTrace {
    let next = step_after(cli, cfg, outs.len(), t.step, cover_built);
    RunTrace {
        step: next,
        written: match next {
            Step::WriteTrack(i) => t.written.push(outs[i as int]),
            _ => t.written,
        },
        cover_copied: t.cover_copied || next is CopyCover,
    }
}

/// A run after `k` steps past reading the chapters.
pub open spec fn run_after(
    cli: Cli,
    cfg: Config,
    outs: Seq<Seq<char>>,
    cover_built: bool,
    k: nat,
) -> RunTrace
    decreases k,
{
    if k == 0 {
        RunTrace { step: Step::Probe, written: Seq::empty(), cover_copied: false }
    } else {
        run_advance(cli, cfg, outs, cover_built, run_after(cli, cfg, outs, cover_built, (k - 1) as nat))
    }
}

/// The steps from the download to the album folder: the download, the cover
/// unless `--no-cover`, and making the folder.
pub open spec fn steps_before_tracks(cli: Cli) -> nat {
    if cli.no_cover {
        2
    } else {
        3
    }
}

/// The steps after the last track, up to and including `Finish`.
pub open spec fn steps_after_tracks(cfg: Config, cover_built: bool) -> nat {
    (if cover_built && !embeds_cover(cfg.format) {
        1nat
    } else {
        0nat
    }) + (if cfg.keep_full {
        1nat
    } else {
        0nat
    }) + (if cfg.add_to_music {
        1nat
    } else {
        0nat
    }) + 1
}

/// How many steps a full run of `n` tracks takes after reading the chapters.
pub open spec fn run_length(cli: Cli, cfg: Config, n: nat, cover_built: bool) -> nat {
    steps_before_tracks(cli) + n + steps_after_tracks(cfg, cover_built)
}

proof fn lemma_run_reaches_the_album_dir(
    cli: Cli,
    cfg: Config,
    outs: Seq<Seq<char>>,
    cover_built: bool,
)
    requires
        !cli.list,
        !cli.dry_run,
    ensures
        run_after(cli, cfg, outs, cover_built, steps_before_tracks(cli)) == (RunTrace {
            step: Step::MakeAlbumDir,
            written: Seq::empty(),
            cover_copied: false,
        }),
{
    reveal_with_fuel(run_after, 4);
    let t0 = run_after(cli, cfg, outs, cover_built, 0);
    assert(t0.step == Step::Probe);
    let t1 = run_after(cli, cfg, outs, cover_built, 1);
    assert(t1 == run_advance(cli, cfg, outs, cover_built, t0));
    assert(t1.step == Step::Download);
    let t2 = run_after(cli, cfg, outs, cover_built, 2);
    if cli.no_cover {
        assert(t2.step == Step::MakeAlbumDir);
    } else {
        assert(t2.step == Step::BuildCover);
        let t3 = run_after(cli, cfg, outs, cover_built, 3);
        assert(t3.step == Step::MakeAlbumDir);
    }
}

proof fn lemma_run_writes_in_order(
    cli: Cli,
    cfg: Config,
    outs: Seq<Seq<char>>,
    cover_built: bool,
    j: nat,
)
    requires
        !cli.list,
        !cli.dry_run,
        j <= outs.len(),
        outs.len() <= usize::MAX,
    ensures
        ({
            let t = run_after(cli, cfg, outs, cover_built, steps_before_tracks(cli) + j);
            &&& t.step == (if j == 0 {
                Step::MakeAlbumDir
            } else {
                Step::WriteTrack((j - 1) as usize)
            })
            &&& t.written == outs.take(j as int)
            &&& !t.cover_copied
        }),
    decreases j,
{
    if j == 0 {
        lemma_run_reaches_the_album_dir(cli, cfg, outs, cover_built);
        assert(outs.take(0) =~= Seq::<Seq<char>>::empty());
    } else {
        lemma_run_writes_in_order(cli, cfg, outs, cover_built, (j - 1) as nat);
        let k = steps_before_tracks(cli) + j;
        assert(run_after(cli, cfg, outs, cover_built, k) == run_advance(
            cli,
            cfg,
            outs,
            cover_built,
            run_after(cli, cfg, outs, cover_built, (k - 1) as nat),
        ));
        assert(outs.take(j as int) =~= outs.take(j - 1).push(outs[j - 1]));
    }
}

/// A run that neither lists nor dry-runs, and in which every download,
/// encode and copy succeeds, finishes after `run_length` steps. By then it
/// has written every track file of the plan, each once and in order: chapter
/// `i` as track `i + 1` in the album folder. It has copied the cover beside
/// them exactly when one was built and the format cannot embed it, so the
/// run reports that copy, and (through `outcome_of`) the whole track list
/// and, when the import is on and possible, all of its tracks as imported.
pub proof fn law_a_full_run_reports_what_it_wrote(
    cli: Cli,
    cfg: Config,
    dest: Seq<char>,
    album: Seq<char>,
    artist: Option<Seq<char>>,
    titles: Seq<Seq<char>>,
    cover_built: bool,
)
    requires
        !cli.list,
        !cli.dry_run,
        cli.no_cover ==> !cover_built,
        titles.len() <= usize::MAX,
    ensures
        ({
            let dir = album_dir_spec(cli.flat, dest, album, artist);
            let outs = planned_outputs(dir, titles, cfg.format);
            let t = run_after(
                cli,
                cfg,
                outs,
                cover_built,
                run_length(cli, cfg, titles.len(), cover_built),
            );
            &&& t.step is Finish
            &&& t.written == outs
            &&& t.written.len() == titles.len()
            &&& forall|i: int|
                0 <= i < titles.len() ==> #[trigger] t.written[i] == join_path(
                    dir,
                    track_filename_of(
                        (i + 1) as nat,
                        titles.len(),
                        titles[i],
                        format_extension(cfg.format),
                    ),
                )
            &&& t.cover_copied == (cover_built && !embeds_cover(cfg.format))
            &&& reported_cover(dir, t.cover_copied, cfg.format) == (if cover_built && !embeds_cover(
                cfg.format,
            ) {
                Some(join_path(dir, "cover.jpg"@))
            } else {
                None
            })
        }),
{
    let dir = album_dir_spec(cli.flat, dest, album, artist);
    let outs = planned_outputs(dir, titles, cfg.format);
    let n = titles.len();
    lemma_run_writes_in_order(cli, cfg, outs, cover_built, n);
    assert(outs.take(n as int) =~= outs);
    let k0 = steps_before_tracks(cli) + n;
    let copy = cover_built && !embeds_cover(cfg.format);
    // After the last track: the cover copy, the full audio, the import
    // decision and the end, each only where it applies.
    let mut k = k0;
    let t1 = run_after(cli, cfg, outs, cover_built, k + 1);
    assert(t1.step == after_tracks(cfg, cover_built));
    if copy {
        assert(t1.step == Step::CopyCover);
        k = k + 1;
    }
    let t2 = run_after(cli, cfg, outs, cover_built, k + 1);
    assert(t2.step == after_copy(cfg));
    if cfg.keep_full {
        k = k + 1;
    }
    let t3 = run_after(cli, cfg, outs, cover_built, k + 1);
    assert(t3.step == music_step(cfg));
    if cfg.add_to_music {
        k = k + 1;
        let t4 = run_after(cli, cfg, outs, cover_built, k + 1);
        assert(t4.step == Step::Finish);
    }
    assert(k + 1 == run_length(cli, cfg, n, cover_built));
    let t = run_after(cli, cfg, outs, cover_built, k + 1);
    assert(t.written == outs);
}

} // verus!
