//! What the pipeline reads out of yt-dlp's description of a video.
//!
//! `--dump-single-json` is one network round trip and returns everything the
//! rest of the pipeline needs: the chapter list, a title to infer tags from,
//! and the thumbnail URL for the cover.
use vstd::prelude::*;
use crate::text::{chars_of, parse_u32, parse_u32_spec, push_arg, slice, strs};

verus! {

/// Build the argv for the metadata probe.
pub fn probe_args(url: &str) -> (r: Vec<String>)
    ensures
        strs(r@) == seq!["--dump-single-json"@, "--no-warnings"@, "--no-playlist"@, url@],
{
    let mut args: Vec<String> = Vec::new();
    push_arg(&mut args, "--dump-single-json");
    push_arg(&mut args, "--no-warnings");
    // Playlists would make `chapters` ambiguous (whose chapters?) and turn
    // one album into many. Refuse the ambiguity instead of guessing.
    push_arg(&mut args, "--no-playlist");
    push_arg(&mut args, url);
    assert(strs(args@) =~= seq!["--dump-single-json"@, "--no-warnings"@, "--no-playlist"@, url@]);
    args
}

/// The year in a `YYYYMMDD` upload date: its first four characters read as a
/// `u16`, when there are four and they parse.
pub open spec fn year_of(date: Seq<char>) -> Option<u16> {
    if date.len() >= 4 {
        match parse_u32_spec(date.take(4)) {
            Some(y) => if y <= u16::MAX {
                Some(y as u16)
            } else {
                None
            },
            None => None,
        }
    } else {
        None
    }
}

/// The upload year, parsed out of yt-dlp's `YYYYMMDD`.
///
/// This is a fallback only: the upload date is when the video was posted,
/// which for a concert recording is usually days after the performance.
/// A `--year` override always wins.
pub fn upload_year(upload_date: Option<&str>) -> (r: Option<u16>)
    ensures
        r == (match upload_date {
            Some(d) => year_of(d@),
            None => None,
        }),
{
    match upload_date {
        None => None,
        Some(d) => {
            let v = chars_of(d);
            if v.len() < 4 {
                return None;
            }
            let head = slice(&v, 0, 4);
            assert(head@ =~= v@.take(4));
            match parse_u32(&head) {
                Some(y) => if y <= 65535 {
                    Some(y as u16)
                } else {
                    None
                },
                None => None,
            }
        },
    }
}

} // verus!
