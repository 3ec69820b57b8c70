//! Cutting the downloaded audio into tagged tracks.
//!
//! Three decisions here are the difference between output that looks right and
//! output that *is* right, and each one came from getting it wrong first:
//!
//! * **Cut from the source download, not from an intermediate.** Every track
//!   is then one encode away from YouTube's audio instead of two.
//! * **`-map_chapters -1` on every track.** A container that inherits the
//!   source's chapter list advertises all 23 songs inside track 3, and players
//!   present it as the whole album. The durations look fine; the file lies.
//! * **`-map_metadata -1` before setting tags.** Otherwise the source's global
//!   title and comment ride along underneath the tags actually wanted.
//!
//! Audio cuts are sample-accurate because the stream is re-encoded, so unlike
//! a stream-copied video split there is no keyframe drift at the boundaries.
use vstd::prelude::*;
use crate::config::{embeds_cover, format_codec, format_extension, Format};
use crate::naming::{track_filename, track_filename_of};
use crate::text::{
    chars_of, copy_opt, dec, dec_chars, join, join_path, opt_chars, opt_str, owned, owned_opt,
    push_all, push_arg, push_args, push_str, spells, string_of, strs,
};

verus! {

/// Everything written into one track's tags.
#[derive(Debug, Clone, PartialEq, Eq)]
pub struct TrackTags {
    pub title: String,
    pub artist: Option<String>,
    pub album: String,
    pub album_artist: Option<String>,
    pub genre: Option<String>,
    pub year: Option<u16>,
    pub comment: Option<String>,
    pub track: usize,
    pub total: usize,
}

/// The tags of a track, as character sequences.
pub struct TagsView {
    pub title: Seq<char>,
    pub artist: Option<Seq<char>>,
    pub album: Seq<char>,
    pub album_artist: Option<Seq<char>>,
    pub genre: Option<Seq<char>>,
    pub year: Option<u16>,
    pub comment: Option<Seq<char>>,
    pub track: nat,
    pub total: nat,
}

impl View for TrackTags {
    type V = TagsView;

    open spec fn view(&self) -> TagsView {
        TagsView {
            title: self.title@,
            artist: opt_chars(self.artist),
            album: self.album@,
            album_artist: opt_chars(self.album_artist),
            genre: opt_chars(self.genre),
            year: self.year,
            comment: opt_chars(self.comment),
            track: self.track as nat,
            total: self.total as nat,
        }
    }
}

/// yt-dlp args to pull the best audio stream, unmodified.
///
/// Deliberately not `-x/--audio-format`: that would transcode on download, and
/// every track cut from it would inherit that generation loss on top of its
/// own. The container is whatever YouTube served — the caller finds it by
/// glob, since the extension is not known ahead of time.
pub fn download_args(url: &str, out_template: &str) -> (r: Vec<String>)
    ensures
        strs(r@) == seq![
            "-f"@,
            "bestaudio"@,
            "--no-playlist"@,
            "--no-warnings"@,
            "-o"@,
            out_template@,
            url@,
        ],
{
    let mut args: Vec<String> = Vec::new();
    push_arg(&mut args, "-f");
    push_arg(&mut args, "bestaudio");
    push_arg(&mut args, "--no-playlist");
    push_arg(&mut args, "--no-warnings");
    push_arg(&mut args, "-o");
    push_arg(&mut args, out_template);
    push_arg(&mut args, url);
    assert(strs(args@) =~= seq![
        "-f"@,
        "bestaudio"@,
        "--no-playlist"@,
        "--no-warnings"@,
        "-o"@,
        out_template@,
        url@,
    ]);
    args
}

/// The `-c:a` arguments for a format, given the source's codec.
pub open spec fn codec_spec(
    format: Format,
    source_codec: Option<Seq<char>>,
    bitrate: Seq<char>,
) -> Seq<Seq<char>> {
    match format_codec(format) {
        Some(codec) => seq!["-c:a"@, codec, "-b:a"@, bitrate],
        None => if source_codec == Some("opus"@) {
            seq!["-c:a"@, "copy"@]
        } else {
            seq!["-c:a"@, "libopus"@, "-b:a"@, "160k"@]
        },
    }
}

/// Resolve `-c:a` for the target format given what the source actually is.
///
/// Opus output copies when the source is already Opus — the usual case, and
/// the only way to emit audio that is bit-identical to YouTube's. When the
/// source is something else, it has to be encoded, so the "lossless" promise
/// quietly does not apply and libopus does the work.
pub fn codec_args(format: Format, source_codec: Option<&str>, bitrate: &str) -> (r: Vec<String>)
    ensures
        strs(r@) == codec_spec(format, opt_str(source_codec), bitrate@),
{
    let mut args: Vec<String> = Vec::new();
    match format.codec() {
        Some(codec) => {
            push_arg(&mut args, "-c:a");
            push_arg(&mut args, codec);
            push_arg(&mut args, "-b:a");
            push_arg(&mut args, bitrate);
        },
        None => {
            let from_opus = match source_codec {
                Some(c) => spells(&chars_of(c), "opus"),
                None => false,
            };
            if from_opus {
                push_arg(&mut args, "-c:a");
                push_arg(&mut args, "copy");
            } else {
                // Not the source codec, so this is a real encode. 160k is
                // Opus's transparent-for-music point and matches what YouTube
                // itself serves.
                push_arg(&mut args, "-c:a");
                push_arg(&mut args, "libopus");
                push_arg(&mut args, "-b:a");
                push_arg(&mut args, "160k");
            }
        },
    }
    assert(strs(args@) =~= codec_spec(format, opt_str(source_codec), bitrate@));
    args
}

/// One `-metadata key=value` pair.
pub open spec fn meta_pair(key: Seq<char>, value: Seq<char>) -> Seq<Seq<char>> {
    seq!["-metadata"@, key + "="@ + value]
}

/// The pair for an optional tag, or nothing when it is absent.
pub open spec fn opt_pair(key: Seq<char>, value: Option<Seq<char>>) -> Seq<Seq<char>> {
    match value {
        Some(v) => meta_pair(key, v),
        None => Seq::empty(),
    }
}

/// The album artist written for a track: its own, or else the track artist.
pub open spec fn album_artist_of(t: TagsView) -> Option<Seq<char>> {
    match t.album_artist {
        Some(a) => Some(a),
        None => t.artist,
    }
}

/// The metadata arguments for a track, in their fixed order.
pub open spec fn metadata_spec(t: TagsView) -> Seq<Seq<char>> {
    meta_pair("title"@, t.title) + opt_pair("artist"@, t.artist) + meta_pair("album"@, t.album)
        + opt_pair("album_artist"@, album_artist_of(t)) + opt_pair("genre"@, t.genre) + opt_pair(
        "date"@,
        match t.year {
            Some(y) => Some(dec(y as nat)),
            None => None,
        },
    ) + opt_pair("comment"@, t.comment) + meta_pair(
        "track"@,
        dec(t.track) + "/"@ + dec(t.total),
    ) + meta_pair("disc"@, "1/1"@)
}

fn push_meta(args: &mut Vec<String>, key: &str, value: &Vec<char>)
    ensures
        strs(final(args)@) == strs(old(args)@) + meta_pair(key@, value@),
{
    let ghost before = strs(args@);
    push_arg(args, "-metadata");
    let mut kv = chars_of(key);
    push_str(&mut kv, "=");
    push_all(&mut kv, value);
    let s = string_of(&kv);
    push_arg(args, s.as_str());
    assert(strs(args@) =~= before + meta_pair(key@, value@));
}

fn push_opt_meta(args: &mut Vec<String>, key: &str, value: &Option<String>)
    ensures
        strs(final(args)@) == strs(old(args)@) + opt_pair(key@, opt_chars(*value)),
{
    match value {
        Some(v) => push_meta(args, key, &chars_of(v.as_str())),
        None => {
            assert(strs(args@) =~= strs(args@) + opt_pair(key@, opt_chars(*value)));
        },
    }
}

/// Metadata args, in a fixed order so the tests can assert on them.
pub fn metadata_args(tags: &TrackTags) -> (r: Vec<String>)
    ensures
        strs(r@) == metadata_spec(tags@),
{
    let mut args: Vec<String> = Vec::new();
    push_meta(&mut args, "title", &chars_of(tags.title.as_str()));
    push_opt_meta(&mut args, "artist", &tags.artist);
    push_meta(&mut args, "album", &chars_of(tags.album.as_str()));
    // Without album_artist, a player files each track under its own artist and
    // the album fragments — the classic compilation-album failure.
    match &tags.album_artist {
        Some(a) => push_meta(&mut args, "album_artist", &chars_of(a.as_str())),
        None => push_opt_meta(&mut args, "album_artist", &tags.artist),
    }
    push_opt_meta(&mut args, "genre", &tags.genre);
    match tags.year {
        Some(y) => push_meta(&mut args, "date", &dec_chars(y as u64)),
        None => {},
    }
    push_opt_meta(&mut args, "comment", &tags.comment);
    let mut position = dec_chars(tags.track as u64);
    push_str(&mut position, "/");
    let total = dec_chars(tags.total as u64);
    push_all(&mut position, &total);
    push_meta(&mut args, "track", &position);
    push_meta(&mut args, "disc", &chars_of("1/1"));
    assert(strs(args@) =~= metadata_spec(tags@));
    args
}

/// Whether the cover goes into the track: there is one and the format can hold it.
pub open spec fn embeds(cover: Option<Seq<char>>, format: Format) -> bool {
    cover is Some && embeds_cover(format)
}

/// The arguments that belong to the cover, or nothing when it is not embedded.
pub open spec fn when_embedded(embed: bool, args: Seq<Seq<char>>) -> Seq<Seq<char>> {
    if embed {
        args
    } else {
        Seq::empty()
    }
}

/// The input part of the argv: quiet, overwrite, seek, then the inputs.
pub open spec fn input_spec(
    source: Seq<char>,
    cover: Option<Seq<char>>,
    seek_from: Seq<char>,
    seek_to: Seq<char>,
    format: Format,
) -> Seq<Seq<char>> {
    let cover_path = match cover {
        Some(c) => c,
        None => Seq::empty(),
    };
    seq!["-v"@, "error"@, "-y"@, "-ss"@, seek_from, "-to"@, seek_to, "-i"@, source]
        + when_embedded(embeds(cover, format), seq!["-i"@, cover_path])
}

/// The stream mapping: the source's audio, the cover when embedded, and
/// neither the source's metadata nor its chapters.
pub open spec fn mapping_spec(embed: bool) -> Seq<Seq<char>> {
    seq!["-map"@, "0:a"@] + when_embedded(embed, seq!["-map"@, "1:v"@]) + seq![
        "-map_metadata"@,
        "-1"@,
        "-map_chapters"@,
        "-1"@,
    ]
}

/// How an embedded cover is written.
pub open spec fn art_spec(embed: bool) -> Seq<Seq<char>> {
    when_embedded(embed, seq!["-c:v"@, "mjpeg"@, "-disposition:v"@, "attached_pic"@])
}

/// The container options and the output path.
pub open spec fn output_spec(format: Format, output: Seq<char>) -> Seq<Seq<char>> {
    (if format == Format::M4a {
        seq!["-movflags"@, "+faststart"@]
    } else {
        Seq::empty()
    }) + seq![output]
}

/// The complete ffmpeg argv for one track.
pub open spec fn encode_spec(
    source: Seq<char>,
    cover: Option<Seq<char>>,
    seek_from: Seq<char>,
    seek_to: Seq<char>,
    tags: TagsView,
    format: Format,
    source_codec: Option<Seq<char>>,
    bitrate: Seq<char>,
    output: Seq<char>,
) -> Seq<Seq<char>> {
    let embed = embeds(cover, format);
    input_spec(source, cover, seek_from, seek_to, format) + mapping_spec(embed) + codec_spec(
        format,
        source_codec,
        bitrate,
    ) + art_spec(embed) + metadata_spec(tags) + output_spec(format, output)
}

fn input_args(
    source: &str,
    cover: Option<&str>,
    seek_from: &str,
    seek_to: &str,
    format: Format,
) -> (r: Vec<String>)
    ensures
        strs(r@) == input_spec(source@, opt_str(cover), seek_from@, seek_to@, format),
{
    let mut args: Vec<String> = Vec::new();
    push_arg(&mut args, "-v");
    push_arg(&mut args, "error");
    push_arg(&mut args, "-y");
    // Input seeking (-ss before -i) so ffmpeg jumps rather than decoding the
    // whole file up to the cut point. On a two-hour source that is the
    // difference between a second and a minute per track.
    push_arg(&mut args, "-ss");
    push_arg(&mut args, seek_from);
    push_arg(&mut args, "-to");
    push_arg(&mut args, seek_to);
    push_arg(&mut args, "-i");
    push_arg(&mut args, source);
    let ghost head = strs(args@);
    let embed_cover = cover.is_some() && format.supports_embedded_cover();
    let ghost cover_path = match opt_str(cover) {
        Some(c) => c,
        None => Seq::<char>::empty(),
    };
    if embed_cover {
        match cover {
            Some(c) => {
                push_arg(&mut args, "-i");
                push_arg(&mut args, c);
            },
            None => {},
        }
    }
    assert(strs(args@) =~= input_spec(source@, opt_str(cover), seek_from@, seek_to@, format));
    args
}

fn mapping_args(embed: bool) -> (r: Vec<String>)
    ensures
        strs(r@) == mapping_spec(embed),
{
    let mut args: Vec<String> = Vec::new();
    push_arg(&mut args, "-map");
    push_arg(&mut args, "0:a");
    if embed {
        push_arg(&mut args, "-map");
        push_arg(&mut args, "1:v");
    }
    // Start from no metadata and no chapters, then add exactly what is wanted.
    push_arg(&mut args, "-map_metadata");
    push_arg(&mut args, "-1");
    push_arg(&mut args, "-map_chapters");
    push_arg(&mut args, "-1");
    assert(strs(args@) =~= mapping_spec(embed));
    args
}

fn art_args(embed: bool) -> (r: Vec<String>)
    ensures
        strs(r@) == art_spec(embed),
{
    let mut args: Vec<String> = Vec::new();
    if embed {
        push_arg(&mut args, "-c:v");
        push_arg(&mut args, "mjpeg");
        push_arg(&mut args, "-disposition:v");
        push_arg(&mut args, "attached_pic");
    }
    assert(strs(args@) =~= art_spec(embed));
    args
}

fn output_args(format: Format, output: &str) -> (r: Vec<String>)
    ensures
        strs(r@) == output_spec(format, output@),
{
    let mut args: Vec<String> = Vec::new();
    // Move the index to the front so players can start without reading the
    // whole file. MP4-family only; harmless to omit elsewhere.
    if format == Format::M4a {
        push_arg(&mut args, "-movflags");
        push_arg(&mut args, "+faststart");
    }
    push_arg(&mut args, output);
    assert(strs(args@) =~= output_spec(format, output@));
    args
}

/// The complete ffmpeg argv for one track.
///
/// `seek_from` and `seek_to` are the chapter's start and end, already written
/// with three decimals; every other parameter is an independent axis of the
/// ffmpeg invocation.
pub fn encode_args(
    source: &str,
    cover: Option<&str>,
    seek_from: &str,
    seek_to: &str,
    tags: &TrackTags,
    format: Format,
    source_codec: Option<&str>,
    bitrate: &str,
    output: &str,
) -> (r: Vec<String>)
    ensures
        strs(r@) == encode_spec(
            source@,
            opt_str(cover),
            seek_from@,
            seek_to@,
            tags@,
            format,
            opt_str(source_codec),
            bitrate@,
            output@,
        ),
{
    let embed_cover = cover.is_some() && format.supports_embedded_cover();
    let mut args = input_args(source, cover, seek_from, seek_to, format);
    push_args(&mut args, mapping_args(embed_cover));
    push_args(&mut args, codec_args(format, source_codec, bitrate));
    push_args(&mut args, art_args(embed_cover));
    push_args(&mut args, metadata_args(tags));
    push_args(&mut args, output_args(format, output));
    args
}

/// Where a given track will be written.
pub fn output_path(dir: &str, index: usize, total: usize, title: &str, format: Format) -> (r:
    String)
    ensures
        r@ == join_path(
            dir@,
            track_filename_of(index as nat, total as nat, title@, format_extension(format)),
        ),
{
    let name = track_filename(index, total, title, format.extension());
    join(dir, name.as_str())
}

/// The tags of track `index` of `total`, from per-chapter and per-album facts.
pub open spec fn tags_spec(
    title: Seq<char>,
    index: nat,
    total: nat,
    artist: Option<Seq<char>>,
    album: Seq<char>,
    genre: Option<Seq<char>>,
    year: Option<u16>,
    comment: Option<Seq<char>>,
) -> TagsView {
    TagsView {
        title,
        artist,
        album,
        album_artist: artist,
        genre,
        year,
        comment,
        track: index,
        total,
    }
}

/// Tags for track `index`, combining per-chapter and per-album facts.
pub fn tags_for(
    title: &str,
    index: usize,
    total: usize,
    artist: Option<&str>,
    album: &str,
    genre: Option<&str>,
    year: Option<u16>,
    comment: Option<&str>,
) -> (r: TrackTags)
    ensures
        r@ == tags_spec(
            title@,
            index as nat,
            total as nat,
            opt_str(artist),
            album@,
            opt_str(genre),
            year,
            opt_str(comment),
        ),
{
    TrackTags {
        title: owned(title),
        artist: owned_opt(artist),
        album: owned(album),
        album_artist: owned_opt(artist),
        genre: owned_opt(genre),
        year,
        comment: owned_opt(comment),
        track: index,
        total,
    }
}

/// Every track starts from no metadata and no chapters: without
/// `-map_chapters -1` each track would advertise the whole album's chapter
/// list, and without `-map_metadata -1` the source's tags would ride along.
pub proof fn law_every_track_drops_the_sources_chapters_and_metadata(
    source: Seq<char>,
    cover: Option<Seq<char>>,
    seek_from: Seq<char>,
    seek_to: Seq<char>,
    tags: TagsView,
    format: Format,
    source_codec: Option<Seq<char>>,
    bitrate: Seq<char>,
    output: Seq<char>,
)
    ensures
        ({
            let args = encode_spec(
                source,
                cover,
                seek_from,
                seek_to,
                tags,
                format,
                source_codec,
                bitrate,
                output,
            );
            exists|i: int|
                0 <= i && i + 3 < args.len() && #[trigger] args[i] == "-map_metadata"@ && args[i + 1] == "-1"@
                    && args[i + 2] == "-map_chapters"@ && args[i + 3] == "-1"@
        }),
{
    let embed = embeds(cover, format);
    let a = input_spec(source, cover, seek_from, seek_to, format);
    let b = mapping_spec(embed);
    let ab = a + b;
    let args = encode_spec(
        source,
        cover,
        seek_from,
        seek_to,
        tags,
        format,
        source_codec,
        bitrate,
        output,
    );
    let i = ab.len() - 4;
    assert(b.len() >= 4);
    assert(b[b.len() - 4] == "-map_metadata"@);
    assert(b[b.len() - 3] == "-1"@);
    assert(b[b.len() - 2] == "-map_chapters"@);
    assert(b[b.len() - 1] == "-1"@);
    assert(args.take(ab.len() as int) =~= ab);
    assert(args[i] == ab[i] && args[i + 1] == ab[i + 1] && args[i + 2] == ab[i + 2] && args[i + 3]
        == ab[i + 3]);
}

/// The cut points are input options: `-ss` and `-to` come before the `-i`
/// that opens the source, so ffmpeg seeks rather than decoding up to the cut.
pub proof fn law_seek_precedes_the_source_input(
    source: Seq<char>,
    cover: Option<Seq<char>>,
    seek_from: Seq<char>,
    seek_to: Seq<char>,
    tags: TagsView,
    format: Format,
    source_codec: Option<Seq<char>>,
    bitrate: Seq<char>,
    output: Seq<char>,
)
    ensures
        ({
            let args = encode_spec(
                source,
                cover,
                seek_from,
                seek_to,
                tags,
                format,
                source_codec,
                bitrate,
                output,
            );
            &&& args.len() > 8
            &&& args[3] == "-ss"@ && args[4] == seek_from
            &&& args[5] == "-to"@ && args[6] == seek_to
            &&& args[7] == "-i"@ && args[8] == source
        }),
{
    let a = input_spec(source, cover, seek_from, seek_to, format);
    let args = encode_spec(
        source,
        cover,
        seek_from,
        seek_to,
        tags,
        format,
        source_codec,
        bitrate,
        output,
    );
    assert(args.take(a.len() as int) =~= a);
    assert(args.take(9) =~= a.take(9));
}

/// The cover is mapped in as an attached picture exactly when there is one
/// and the container can hold it; a format that cannot takes no cover input
/// at all, as if there were none.
pub proof fn law_cover_goes_in_only_where_it_can(
    source: Seq<char>,
    cover: Option<Seq<char>>,
    seek_from: Seq<char>,
    seek_to: Seq<char>,
    tags: TagsView,
    format: Format,
    source_codec: Option<Seq<char>>,
    bitrate: Seq<char>,
    output: Seq<char>,
)
    ensures
        ({
            let args = encode_spec(
                source,
                cover,
                seek_from,
                seek_to,
                tags,
                format,
                source_codec,
                bitrate,
                output,
            );
            &&& embeds(cover, format) ==> args[9] == "-i"@ && args[10] == cover->0
                && args[13] == "-map"@ && args[14] == "1:v"@
            &&& embeds(cover, format) ==> exists|j: int|
                0 <= j && j + 3 < args.len() && #[trigger] args[j] == "-c:v"@ && args[j + 1] == "mjpeg"@
                    && args[j + 2] == "-disposition:v"@ && args[j + 3] == "attached_pic"@
            &&& !embeds(cover, format) ==> args == encode_spec(
                source,
                None,
                seek_from,
                seek_to,
                tags,
                format,
                source_codec,
                bitrate,
                output,
            )
        }),
{
    let embed = embeds(cover, format);
    let a = input_spec(source, cover, seek_from, seek_to, format);
    let b = mapping_spec(embed);
    let c = codec_spec(format, source_codec, bitrate);
    let d = art_spec(embed);
    let args = encode_spec(
        source,
        cover,
        seek_from,
        seek_to,
        tags,
        format,
        source_codec,
        bitrate,
        output,
    );
    if embed {
        let abc = a + b + c;
        assert(args.take(abc.len() as int) =~= abc);
        assert(args.take((abc.len() + 4) as int) =~= abc + d);
        let j = abc.len() as int;
        assert(args[j] == (abc + d)[j]);
        assert(args[j + 1] == (abc + d)[j + 1]);
        assert(args[j + 2] == (abc + d)[j + 2]);
        assert(args[j + 3] == (abc + d)[j + 3]);
    } else {
        assert(input_spec(source, cover, seek_from, seek_to, format) =~= input_spec(
            source,
            None,
            seek_from,
            seek_to,
            format,
        ));
    }
}

/// Without its own album artist a track is filed under its artist, so an
/// album does not fragment into one entry per track artist.
pub proof fn law_album_artist_defaults_to_the_artist(t: TagsView)
    ensures
        t.album_artist is None && t.artist is Some ==> metadata_spec(t)[7] == "album_artist"@
            + "="@ + t.artist->0,
{
}

/// The argv is laid out in fixed runs: quiet, overwrite and the seek before
/// the source input; the codec arguments as one unbroken run right after the
/// stream mapping (four places later when a cover is embedded, for its input
/// and its map); the metadata as one unbroken run just before the end; and
/// the output path last, with `-movflags +faststart` in front of it exactly
/// for M4A.
pub proof fn law_the_argv_is_laid_out_in_runs(
    source: Seq<char>,
    cover: Option<Seq<char>>,
    seek_from: Seq<char>,
    seek_to: Seq<char>,
    tags: TagsView,
    format: Format,
    source_codec: Option<Seq<char>>,
    bitrate: Seq<char>,
    output: Seq<char>,
)
    ensures
        ({
            let args = encode_spec(
                source,
                cover,
                seek_from,
                seek_to,
                tags,
                format,
                source_codec,
                bitrate,
                output,
            );
            let codec = codec_spec(format, source_codec, bitrate);
            let meta = metadata_spec(tags);
            let p: int = if embeds(cover, format) {
                19
            } else {
                15
            };
            let q: int = p + codec.len() + if embeds(cover, format) {
                4int
            } else {
                0int
            };
            let t: int = if format == Format::M4a {
                3
            } else {
                1
            };
            &&& args.take(9) == seq![
                "-v"@,
                "error"@,
                "-y"@,
                "-ss"@,
                seek_from,
                "-to"@,
                seek_to,
                "-i"@,
                source,
            ]
            &&& args.subrange(p, p + codec.len()) == codec
            &&& args.subrange(q, q + meta.len()) == meta
            &&& args.len() == q + meta.len() + t
            &&& args.last() == output
            &&& (format == Format::M4a <==> (args[args.len() - 3] == "-movflags"@ && args[args.len()
                - 2] == "+faststart"@ && args.len() >= q + meta.len() + 3))
        }),
{
    let e = embeds(cover, format);
    let a = input_spec(source, cover, seek_from, seek_to, format);
    let b = mapping_spec(e);
    let c = codec_spec(format, source_codec, bitrate);
    let d = art_spec(e);
    let m = metadata_spec(tags);
    let o = output_spec(format, output);
    let args = encode_spec(
        source,
        cover,
        seek_from,
        seek_to,
        tags,
        format,
        source_codec,
        bitrate,
        output,
    );
    assert(args == a + b + c + d + m + o);
    let p: int = a.len() as int + b.len() as int;
    let q: int = p + c.len() + d.len();
    assert(args.take(9) =~= a.take(9));
    assert(args.subrange(p, p + c.len()) =~= c);
    assert(args.subrange(q, q + m.len()) =~= m);
    assert(args.skip(q + m.len()) =~= o);
    assert(args.last() == o.last());
    if format == Format::M4a {
        assert(args[args.len() - 3] == o[0]);
        assert(args[args.len() - 2] == o[1]);
    }
}

} // verus!
