//! The command-line surface, as the library sees it once parsed.
use vstd::prelude::*;
use crate::config::Format;
use crate::naming::{safe_stem, stem_of};
use crate::text::{chars_of, opt_str, push_str, string_of};

verus! {

/// Split a chapter-marked YouTube video into tagged audio tracks.
#[derive(Debug)]
pub struct Cli {
    /// Video URL. Must have chapter markers — those are the track boundaries.
    pub url: String,
    /// Where to write the album folder [default: your Desktop]
    pub dest: Option<String>,
    /// Audio format [default: m4a]
    pub format: Option<Format>,
    /// Audio bitrate, e.g. 256k [default: per-format]
    pub bitrate: Option<String>,
    /// Album artist [default: inferred from the video title]
    pub artist: Option<String>,
    /// Album title [default: inferred from the video title]
    pub album: Option<String>,
    /// Release year [default: the video's upload year]
    pub year: Option<u16>,
    /// Genre tag
    pub genre: Option<String>,
    /// Comment tag written to every track
    pub comment: Option<String>,
    /// Also add the finished tracks to Apple Music (macOS)
    pub music: bool,
    /// Keep the un-split full-length audio alongside the tracks
    pub keep_full: bool,
    /// Skip cover art entirely
    pub no_cover: bool,
    /// Write tracks straight into the destination instead of an album subfolder
    pub flat: bool,
    /// Print the track listing and what would be written, then stop
    pub dry_run: bool,
    /// Print the chapter list and exit — no download
    pub list: bool,
}

/// The album folder's name for an album and optional artist.
pub open spec fn album_dir_of(album: Seq<char>, artist: Option<Seq<char>>) -> Seq<char> {
    match artist {
        Some(a) => stem_of(a + " - "@ + album),
        None => stem_of(album),
    }
}

impl Cli {
    /// The album folder's name, or `None` when `--flat` was given.
    pub fn album_dir_name(&self, album: &str, artist: Option<&str>) -> (r: Option<String>)
        ensures
            self.flat ==> r is None,
            !self.flat ==> (r matches Some(name) && name@ == album_dir_of(album@, opt_str(artist))),
    {
        if self.flat {
            return None;
        }
        match artist {
            Some(a) => {
                let mut joined = chars_of(a);
                push_str(&mut joined, " - ");
                push_str(&mut joined, album);
                let name = string_of(&joined);
                Some(safe_stem(name.as_str()))
            },
            None => Some(safe_stem(album)),
        }
    }
}

} // verus!
