//! Output format, and where settings come from.
//!
//! Precedence, highest first: command-line flag, `SLEEVE_*` environment
//! variable (both read by the command-line parser), the config file, then the
//! built-in default. The config file exists so the settings you never vary —
//! your destination, your preferred format — do not have to be retyped.
use vstd::prelude::*;
use crate::text::{copy_opt, join, join_path, opt_chars, owned};

verus! {

/// Audio container and codec for the emitted tracks.
#[derive(Debug, Clone, Copy, PartialEq, Eq, Structural)]
pub enum Format {
    /// AAC in MP4. The default: Apple-native, embeds cover art, widely played.
    M4a,
    /// MP3. Larger at equal quality, but plays on everything ever made.
    Mp3,
    /// Opus in Ogg. Stream-copied from YouTube's own audio, so it is the only
    /// lossless-relative-to-source option — at the cost of no embedded cover
    /// and no Apple Music support.
    Opus,
}

impl Default for Format {
    fn default() -> (r: Self)
        ensures
            r == Format::M4a,
    {
        Format::M4a
    }
}

/// The file extension of a format.
pub open spec fn format_extension(f: Format) -> Seq<char> {
    match f {
        Format::M4a => "m4a"@,
        Format::Mp3 => "mp3"@,
        Format::Opus => "opus"@,
    }
}

/// The ffmpeg `-c:a` value of a format, or `None` when its stream is copied.
pub open spec fn format_codec(f: Format) -> Option<Seq<char>> {
    match f {
        Format::M4a => Some("aac"@),
        Format::Mp3 => Some("libmp3lame"@),
        Format::Opus => None,
    }
}

/// Whether ffmpeg can embed cover art in the format's container.
pub open spec fn embeds_cover(f: Format) -> bool {
    match f {
        Format::M4a | Format::Mp3 => true,
        Format::Opus => false,
    }
}

/// Whether Apple Music imports the format.
pub open spec fn music_importable(f: Format) -> bool {
    match f {
        Format::M4a | Format::Mp3 => true,
        Format::Opus => false,
    }
}

/// The bitrate used when none is configured.
pub open spec fn format_default_bitrate(f: Format) -> Seq<char> {
    match f {
        Format::M4a => "256k"@,
        Format::Mp3 => "320k"@,
        Format::Opus => "copy"@,
    }
}

impl Format {
    pub fn extension(self) -> (r: &'static str)
        ensures
            r@ == format_extension(self),
    {
        match self {
            Format::M4a => "m4a",
            Format::Mp3 => "mp3",
            Format::Opus => "opus",
        }
    }

    /// ffmpeg `-c:a` value, or `None` when the stream is copied verbatim.
    ///
    /// Opus copies because YouTube's best audio *is* Opus: re-encoding it
    /// would spend quality to produce a larger file.
    pub fn codec(self) -> (r: Option<&'static str>)
        ensures
            (match r {
                Some(c) => Some(c@),
                None => None,
            }) == format_codec(self),
    {
        match self {
            Format::M4a => Some("aac"),
            Format::Mp3 => Some("libmp3lame"),
            Format::Opus => None,
        }
    }

    /// Whether cover art can be embedded in this container by ffmpeg.
    ///
    /// Ogg/Opus carries art as a base64 `METADATA_BLOCK_PICTURE` comment,
    /// which ffmpeg does not write. Rather than silently drop the art, the
    /// pipeline writes `cover.jpg` beside the tracks for these formats.
    pub fn supports_embedded_cover(self) -> (r: bool)
        ensures
            r == embeds_cover(self),
    {
        match self {
            Format::M4a | Format::Mp3 => true,
            Format::Opus => false,
        }
    }

    /// Whether Apple Music will import this format.
    pub fn importable_by_music_app(self) -> (r: bool)
        ensures
            r == music_importable(self),
    {
        match self {
            Format::M4a | Format::Mp3 => true,
            Format::Opus => false,
        }
    }

    pub fn default_bitrate(self) -> (r: &'static str)
        ensures
            r@ == format_default_bitrate(self),
    {
        match self {
            Format::M4a => "256k",
            // Below 320k, MP3's quality deficit versus AAC becomes audible on
            // cymbals and applause — exactly what a live recording is full of.
            Format::Mp3 => "320k",
            Format::Opus => "copy",
        }
    }
}

/// Only the format that is copied rather than encoded lacks embedded cover
/// art and Apple Music support; the two capabilities always go together.
pub proof fn law_only_the_copied_format_lacks_cover_and_music(f: Format)
    ensures
        embeds_cover(f) == music_importable(f),
        embeds_cover(f) <==> format_codec(f) is Some,
{
}

/// The on-disk config file. Every field is optional; absent means "fall back".
#[derive(Debug, Clone, PartialEq)]
pub struct FileConfig {
    pub dest: Option<String>,
    pub format: Option<Format>,
    pub bitrate: Option<String>,
    pub genre: Option<String>,
    /// Add finished tracks to Apple Music without needing `--music` each run.
    pub add_to_music: Option<bool>,
    /// Keep the un-split full-length audio alongside the tracks.
    pub keep_full: Option<bool>,
}

impl Default for FileConfig {
    fn default() -> (r: Self)
        ensures
            r.dest is None,
            r.format is None,
            r.bitrate is None,
            r.genre is None,
            r.add_to_music is None,
            r.keep_full is None,
    {
        FileConfig {
            dest: None,
            format: None,
            bitrate: None,
            genre: None,
            add_to_music: None,
            keep_full: None,
        }
    }
}

#[verifier::external_type_specification]
#[verifier::external_body]
pub struct ExBaseDirs(directories::BaseDirs);

/// `directories::BaseDirs::new`: looks the home directory up in the
/// environment; whether it finds one depends on the machine, so nothing is
/// promised of the result.
#[verifier::external_body]
fn base_dirs() -> (r: Option<directories::BaseDirs>) {
    directories::BaseDirs::new()
}

/// `directories::BaseDirs::home_dir`, as text. The value was read from the
/// environment when the `BaseDirs` was made, so nothing is promised of it.
#[verifier::external_body]
fn base_home_dir(dirs: &directories::BaseDirs) -> (r: String) {
    dirs.home_dir().to_string_lossy().into_owned()
}

/// The config file under a home directory: `<home>/.config/sleeve/config.toml`.
pub open spec fn config_file_in(home: Seq<char>) -> Seq<char> {
    join_path(join_path(join_path(home, ".config"@), "sleeve"@), "config.toml"@)
}

/// The config file's path under `home`.
pub fn config_path_in(home: &str) -> (r: String)
    ensures
        r@ == config_file_in(home@),
{
    let a = join(home, ".config");
    let b = join(a.as_str(), "sleeve");
    join(b.as_str(), "config.toml")
}

/// Where the config file lives: `~/.config/sleeve/config.toml` on macOS and
/// Linux alike.
///
/// `directories` would put this under `~/Library/Application Support` on
/// macOS, which is correct for app data but wrong for a CLI's dotfile — no
/// one hand-edits TOML in there.
pub fn config_path() -> (r: Option<String>)
    ensures
        r matches Some(p) ==> exists|home: Seq<char>| p@ == config_file_in(home),
{
    match base_dirs() {
        Some(dirs) => {
            let home = base_home_dir(&dirs);
            Some(config_path_in(home.as_str()))
        },
        None => None,
    }
}

/// The output directory chosen from what the environment gave: the desktop
/// directory, else the home directory, else `.` (the current directory).
pub open spec fn dest_choice(desktop: Option<Seq<char>>, home: Option<Seq<char>>) -> Seq<char> {
    match desktop {
        Some(d) => d,
        None => match home {
            Some(h) => h,
            None => "."@,
        },
    }
}

/// Picks the output directory out of the user's desktop and home
/// directories, as far as they are known.
pub fn pick_dest(desktop: Option<String>, home: Option<String>) -> (r: String)
    ensures
        r@ == dest_choice(opt_chars(desktop), opt_chars(home)),
{
    match desktop {
        Some(d) => d,
        None => match home {
            Some(h) => h,
            None => owned("."),
        },
    }
}

/// Fully resolved settings for one run.
#[derive(Debug, Clone, PartialEq)]
pub struct Config {
    pub dest: String,
    pub format: Format,
    pub bitrate: String,
    pub genre: Option<String>,
    pub add_to_music: bool,
    pub keep_full: bool,
}

/// The format that wins the precedence: flag, then file, then M4A.
pub open spec fn resolved_format(cli: Option<Format>, file: Option<Format>) -> Format {
    match cli {
        Some(f) => f,
        None => match file {
            Some(f) => f,
            None => Format::M4a,
        },
    }
}

/// The first of two optional strings that is present.
pub open spec fn first_of(a: Option<Seq<char>>, b: Option<Seq<char>>) -> Option<Seq<char>> {
    match a {
        Some(x) => Some(x),
        None => b,
    }
}

impl Config {
    /// Apply the precedence rules. `cli_*` values are `None` when the flag was
    /// not given, which is what lets the file win over the built-in default
    /// without overriding an explicit flag. `default_dest` is the platform's
    /// default output directory (see `pick_dest`), used only when neither the
    /// flag nor the file names one.
    pub fn resolve(
        file: &FileConfig,
        default_dest: &str,
        cli_dest: Option<String>,
        cli_format: Option<Format>,
        cli_bitrate: Option<String>,
        cli_genre: Option<String>,
        cli_music: bool,
        cli_keep_full: bool,
    ) -> (r: Self)
        ensures
            r.dest@ == (match first_of(opt_chars(cli_dest), opt_chars(file.dest)) {
                Some(d) => d,
                None => default_dest@,
            }),
            r.format == resolved_format(cli_format, file.format),
            r.bitrate@ == (match first_of(opt_chars(cli_bitrate), opt_chars(file.bitrate)) {
                Some(b) => b,
                None => format_default_bitrate(r.format),
            }),
            opt_chars(r.genre) == first_of(opt_chars(cli_genre), opt_chars(file.genre)),
            r.add_to_music == (cli_music || file.add_to_music == Some(true)),
            r.keep_full == (cli_keep_full || file.keep_full == Some(true)),
    {
        let format = match cli_format {
            Some(f) => f,
            None => match file.format {
                Some(f) => f,
                None => Format::default(),
            },
        };
        let dest = match cli_dest {
            Some(d) => d,
            None => match &file.dest {
                Some(d) => owned(d.as_str()),
                None => owned(default_dest),
            },
        };
        let bitrate = match cli_bitrate {
            Some(b) => b,
            None => match &file.bitrate {
                Some(b) => owned(b.as_str()),
                None => owned(format.default_bitrate()),
            },
        };
        let genre = match cli_genre {
            Some(g) => Some(g),
            None => copy_opt(&file.genre),
        };
        // Booleans are flags: present means true, and the file can turn
        // them on by default. There is deliberately no `--no-music`; the
        // file is the place to express a standing preference.
        let add_to_music = cli_music || match file.add_to_music {
            Some(b) => b,
            None => false,
        };
        let keep_full = cli_keep_full || match file.keep_full {
            Some(b) => b,
            None => false,
        };
        Config { dest, format, bitrate, genre, add_to_music, keep_full }
    }
}

} // verus!
