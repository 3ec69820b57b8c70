//! Turning a 16:9 video thumbnail into square cover art.
//!
//! Two things make this more than a centre-crop. Thumbnails are frequently
//! *already* letterboxed or pillarboxed — the uploader exported a 4:3 or
//! square graphic into a 16:9 frame — so the real image is a sub-rectangle of
//! the file. And a centre-crop of a genuine 16:9 image throws away a third of
//! it, which for a title card means cropping the text.
//!
//! So: detect the real content box, crop to it, then **pad** to square rather
//! than cropping further. Padding costs nothing but background; cropping costs
//! the picture.
use vstd::prelude::*;
use crate::text::{
    chars_of, dec, join, join_path, find, find_first, find_last, lemma_find_from_found,
    lemma_rfind_below_found, lines, occurs_at, lines_of, parse_u32, parse_u32_spec, push_all, push_arg,
    push_dec, push_str, rfind, seqs_of, slice, split_char, split_on, string_of, strs, trim,
    trim_ws,
};

verus! {

/// A rectangle within an image, in ffmpeg's `crop=w:h:x:y` order.
#[derive(Debug, Clone, Copy, PartialEq, Eq, Structural)]
pub struct CropBox {
    pub w: u32,
    pub h: u32,
    pub x: u32,
    pub y: u32,
}

/// yt-dlp args to fetch the thumbnail and normalise it to JPEG.
///
/// YouTube serves WebP now; converting at download time means the rest of the
/// pipeline only ever handles one format.
pub fn thumbnail_args(url: &str, out_template: &str) -> (r: Vec<String>)
    ensures
        strs(r@) == seq![
            "--skip-download"@,
            "--write-thumbnail"@,
            "--convert-thumbnails"@,
            "jpg"@,
            "--no-warnings"@,
            "--no-playlist"@,
            "-o"@,
            out_template@,
            url@,
        ],
{
    let mut args: Vec<String> = Vec::new();
    push_arg(&mut args, "--skip-download");
    push_arg(&mut args, "--write-thumbnail");
    push_arg(&mut args, "--convert-thumbnails");
    push_arg(&mut args, "jpg");
    push_arg(&mut args, "--no-warnings");
    push_arg(&mut args, "--no-playlist");
    push_arg(&mut args, "-o");
    push_arg(&mut args, out_template);
    push_arg(&mut args, url);
    assert(strs(args@) =~= seq![
        "--skip-download"@,
        "--write-thumbnail"@,
        "--convert-thumbnails"@,
        "jpg"@,
        "--no-warnings"@,
        "--no-playlist"@,
        "-o"@,
        out_template@,
        url@,
    ]);
    args
}

/// ffmpeg args that make cropdetect report the content box of a still image.
///
/// `-loop 1` is load-bearing and not obvious. cropdetect accumulates across
/// frames and only prints once it has something to say; handed a single JPEG
/// frame it emits **nothing at all**, and the caller silently concludes there
/// are no bars. Looping the still gives it the frames it wants, and three is
/// enough for the estimate to settle.
pub fn cropdetect_args(input: &str) -> (r: Vec<String>)
    ensures
        strs(r@) == seq![
            "-hide_banner"@,
            "-loop"@,
            "1"@,
            "-i"@,
            input@,
            "-vf"@,
            "cropdetect=limit=24:round=2"@,
            "-frames:v"@,
            "3"@,
            "-f"@,
            "null"@,
            "-"@,
        ],
{
    let mut args: Vec<String> = Vec::new();
    push_arg(&mut args, "-hide_banner");
    push_arg(&mut args, "-loop");
    push_arg(&mut args, "1");
    push_arg(&mut args, "-i");
    push_arg(&mut args, input);
    // limit=24 tolerates the not-quite-black bars that JPEG compression
    // produces; round=2 keeps the result even, which some encoders need.
    push_arg(&mut args, "-vf");
    push_arg(&mut args, "cropdetect=limit=24:round=2");
    push_arg(&mut args, "-frames:v");
    push_arg(&mut args, "3");
    push_arg(&mut args, "-f");
    push_arg(&mut args, "null");
    push_arg(&mut args, "-");
    assert(strs(args@) =~= seq![
        "-hide_banner"@,
        "-loop"@,
        "1"@,
        "-i"@,
        input@,
        "-vf"@,
        "cropdetect=limit=24:round=2"@,
        "-frames:v"@,
        "3"@,
        "-f"@,
        "null"@,
        "-"@,
    ]);
    args
}

/// The crop box a line of cropdetect output reports: the text after its last
/// `crop=`, trimmed, must be four `:`-separated numbers with a non-zero width
/// and height.
pub open spec fn crop_of_line(line: Seq<char>) -> Option<CropBox> {
    match find_last(line, "crop="@) {
        None => None,
        Some(idx) => {
            let nums = split_on(trim(line.skip(idx + 5 as int)), ':');
            if nums.len() != 4 {
                None
            } else {
                match (
                    parse_u32_spec(trim(nums[0])),
                    parse_u32_spec(trim(nums[1])),
                    parse_u32_spec(trim(nums[2])),
                    parse_u32_spec(trim(nums[3])),
                ) {
                    (Some(w), Some(h), Some(x), Some(y)) => if w > 0 && h > 0 {
                        Some(CropBox { w, h, x, y })
                    } else {
                        None
                    },
                    _ => None,
                }
            }
        },
    }
}

/// The box reported by the last line that reports one.
pub open spec fn last_crop(ls: Seq<Seq<char>>) -> Option<CropBox>
    decreases ls.len(),
{
    if ls.len() == 0 {
        None
    } else {
        match crop_of_line(ls.last()) {
            Some(b) => Some(b),
            None => last_crop(ls.drop_last()),
        }
    }
}

proof fn lemma_last_crop_has_area(ls: Seq<Seq<char>>)
    ensures
        last_crop(ls) matches Some(b) ==> b.w > 0 && b.h > 0,
    decreases ls.len(),
{
    if ls.len() > 0 {
        lemma_last_crop_has_area(ls.drop_last());
    }
}

/// cropdetect reports `crop=0:0:0:0` for an all-black frame; such a box is
/// never taken, so the detected content box always has an area.
pub proof fn law_a_detected_box_is_never_empty(stderr: Seq<char>)
    ensures
        last_crop(lines(stderr)) matches Some(b) ==> b.w > 0 && b.h > 0,
{
    lemma_last_crop_has_area(lines(stderr));
}

fn crop_in_line(line: &Vec<char>) -> (r: Option<CropBox>)
    ensures
        r == crop_of_line(line@),
{
    let pat = chars_of("crop=");
    proof {
        reveal_strlit("crop=");
    }
    let idx = match rfind(line, &pat) {
        Some(i) => i,
        None => return None,
    };
    proof {
        lemma_rfind_below_found(line@, pat@, line@.len());
        assert(pat@.len() == 5);
        assert(occurs_at(line@, pat@, idx as int));
        assert(idx + 5 <= line@.len());
    }
    let n = line.len();
    let spec_part = slice(line, idx + 5, n);
    assert(spec_part@ =~= line@.skip(idx + 5 as int));
    let trimmed = trim_ws(&spec_part);
    let nums = split_char(&trimmed, ':');
    if nums.len() != 4 {
        return None;
    }
    assert(nums@[0]@ == seqs_of(nums@)[0]);
    assert(nums@[1]@ == seqs_of(nums@)[1]);
    assert(nums@[2]@ == seqs_of(nums@)[2]);
    assert(nums@[3]@ == seqs_of(nums@)[3]);
    let w = parse_u32(&trim_ws(&nums[0]));
    let h = parse_u32(&trim_ws(&nums[1]));
    let x = parse_u32(&trim_ws(&nums[2]));
    let y = parse_u32(&trim_ws(&nums[3]));
    match (w, h, x, y) {
        (Some(w), Some(h), Some(x), Some(y)) => if w > 0 && h > 0 {
            Some(CropBox { w, h, x, y })
        } else {
            None
        },
        _ => None,
    }
}

/// Pull the last `crop=w:h:x:y` out of ffmpeg's stderr.
///
/// The last one is the most-refined estimate: cropdetect emits a line per
/// frame and narrows as it goes.
pub fn parse_cropdetect(stderr: &str) -> (r: Option<CropBox>)
    ensures
        r == last_crop(lines(stderr@)),
{
    let text = chars_of(stderr);
    let ls = lines_of(&text);
    let ghost all = lines(stderr@);
    let mut found: Option<CropBox> = None;
    let mut i: usize = 0;
    assert(all.take(0) =~= Seq::<Seq<char>>::empty());
    while i < ls.len()
        invariant
            i <= ls.len(),
            seqs_of(ls@) == all,
            found == last_crop(all.take(i as int)),
        decreases ls.len() - i,
    {
        let line_box = crop_in_line(&ls[i]);
        assert(ls@[i as int]@ == all[i as int]);
        assert(all.take(i + 1).drop_last() =~= all.take(i as int));
        assert(all.take(i + 1).last() == all[i as int]);
        match line_box {
            Some(b) => {
                found = Some(b);
            },
            None => {},
        }
        i = i + 1;
    }
    assert(all.take(ls.len() as int) =~= all);
    found
}

/// The box that is squared: the detected one, or the whole frame.
pub open spec fn content_box(source_w: u32, source_h: u32, crop: Option<CropBox>) -> CropBox {
    match crop {
        Some(c) => c,
        None => CropBox { w: source_w, h: source_h, x: 0, y: 0 },
    }
}

/// The side of the square: the box's long edge.
pub open spec fn square_side(c: CropBox) -> u32 {
    if c.w >= c.h {
        c.w
    } else {
        c.h
    }
}

/// The padding left of the picture.
pub open spec fn pad_left(c: CropBox) -> u32 {
    ((square_side(c) - c.w) / 2) as u32
}

/// The padding above the picture.
pub open spec fn pad_top(c: CropBox) -> u32 {
    ((square_side(c) - c.h) / 2) as u32
}

/// The ffmpeg filter chain that crops to `c` and pads it to square.
pub open spec fn square_filter_of(c: CropBox) -> Seq<char> {
    "crop="@ + dec(c.w as nat) + ":"@ + dec(c.h as nat) + ":"@ + dec(c.x as nat) + ":"@ + dec(
        c.y as nat,
    ) + ",pad="@ + dec(square_side(c) as nat) + ":"@ + dec(square_side(c) as nat) + ":"@ + dec(
        pad_left(c) as nat,
    ) + ":"@ + dec(pad_top(c) as nat) + ":black"@
}

/// The ffmpeg filter chain that produces square art.
///
/// `crop` is the detected content box; when it already covers the whole frame
/// the crop is still emitted (it is a no-op) so the filter string has one
/// shape and one set of tests.
pub fn square_filter(source_w: u32, source_h: u32, crop: Option<CropBox>) -> (r: String)
    ensures
        r@ == square_filter_of(content_box(source_w, source_h, crop)),
{
    let c = match crop {
        Some(c) => c,
        None => CropBox { w: source_w, h: source_h, x: 0, y: 0 },
    };
    let side = if c.w >= c.h {
        c.w
    } else {
        c.h
    };
    let pad_x = (side - c.w) / 2;
    let pad_y = (side - c.h) / 2;
    let mut out = chars_of("crop=");
    push_dec(&mut out, c.w as u64);
    push_str(&mut out, ":");
    push_dec(&mut out, c.h as u64);
    push_str(&mut out, ":");
    push_dec(&mut out, c.x as u64);
    push_str(&mut out, ":");
    push_dec(&mut out, c.y as u64);
    push_str(&mut out, ",pad=");
    push_dec(&mut out, side as u64);
    push_str(&mut out, ":");
    push_dec(&mut out, side as u64);
    push_str(&mut out, ":");
    push_dec(&mut out, pad_x as u64);
    push_str(&mut out, ":");
    push_dec(&mut out, pad_y as u64);
    push_str(&mut out, ":black");
    string_of(&out)
}

/// Padding never crops: the square holds the whole content box, and the
/// padding, rounded down, never pushes the picture outside the canvas.
pub proof fn law_square_holds_the_whole_picture(c: CropBox)
    ensures
        square_side(c) >= c.w,
        square_side(c) >= c.h,
        square_side(c) == c.w || square_side(c) == c.h,
        2 * pad_left(c) + c.w <= square_side(c),
        2 * pad_top(c) + c.h <= square_side(c),
        pad_left(c) == 0 || pad_top(c) == 0,
{
}

/// The filter crops to the detected content box itself, at its own offsets
/// (to the whole frame when none was detected), and then pads that box to a
/// square whose side is its long edge, centred with the odd pixel of padding
/// on the right or bottom.
pub proof fn law_the_crop_is_the_detected_box(source_w: u32, source_h: u32, crop: Option<CropBox>)
    ensures
        ({
            let (w, h, x, y) = match crop {
                Some(b) => (b.w, b.h, b.x, b.y),
                None => (source_w, source_h, 0u32, 0u32),
            };
            let side: nat = if w >= h {
                w as nat
            } else {
                h as nat
            };
            let crop_part = "crop="@ + dec(w as nat) + ":"@ + dec(h as nat) + ":"@ + dec(x as nat)
                + ":"@ + dec(y as nat);
            let pad_part = "pad="@ + dec(side) + ":"@ + dec(side) + ":"@ + dec(
                ((side - w) / 2) as nat,
            ) + ":"@ + dec(((side - h) / 2) as nat) + ":black"@;
            square_filter_of(content_box(source_w, source_h, crop)) == crop_part + ","@ + pad_part
        }),
{
    let c = content_box(source_w, source_h, crop);
    let f = square_filter_of(c);
    assert(f =~= "crop="@ + dec(c.w as nat) + ":"@ + dec(c.h as nat) + ":"@ + dec(c.x as nat)
        + ":"@ + dec(c.y as nat) + ","@ + ("pad="@ + dec(square_side(c) as nat) + ":"@ + dec(
        square_side(c) as nat,
    ) + ":"@ + dec(pad_left(c) as nat) + ":"@ + dec(pad_top(c) as nat) + ":black"@)) by {
        reveal_strlit(",pad=");
        reveal_strlit(",");
        reveal_strlit("pad=");
    }
}

/// Full ffmpeg args to render the square cover.
pub fn render_args(input: &str, output: &str, filter: &str) -> (r: Vec<String>)
    ensures
        strs(r@) == seq![
            "-v"@,
            "error"@,
            "-y"@,
            "-i"@,
            input@,
            "-vf"@,
            filter@,
            "-q:v"@,
            "2"@,
            output@,
        ],
{
    let mut args: Vec<String> = Vec::new();
    push_arg(&mut args, "-v");
    push_arg(&mut args, "error");
    push_arg(&mut args, "-y");
    push_arg(&mut args, "-i");
    push_arg(&mut args, input);
    push_arg(&mut args, "-vf");
    push_arg(&mut args, filter);
    // q:v 2 is visually lossless for JPEG and keeps the art well under the
    // size where players start to complain about embedded images.
    push_arg(&mut args, "-q:v");
    push_arg(&mut args, "2");
    push_arg(&mut args, output);
    assert(strs(args@) =~= seq![
        "-v"@,
        "error"@,
        "-y"@,
        "-i"@,
        input@,
        "-vf"@,
        filter@,
        "-q:v"@,
        "2"@,
        output@,
    ]);
    args
}

/// The argv that renders the cover of `input` into `output` through `filter`.
pub open spec fn render_spec(input: Seq<char>, output: Seq<char>, filter: Seq<char>) -> Seq<
    Seq<char>,
> {
    seq!["-v"@, "error"@, "-y"@, "-i"@, input, "-vf"@, filter, "-q:v"@, "2"@, output]
}

/// Square cover art for a `width` by `height` thumbnail, written as
/// `cover.jpg` into `out_dir`: the path it is written to, and the ffmpeg argv
/// that renders it, cropping to the content box that cropdetect reported on
/// `cropdetect_stderr` (the whole frame when it reported none).
pub fn build(thumbnail: &str, out_dir: &str, width: u32, height: u32, cropdetect_stderr: &str) -> (r:
    (String, Vec<String>))
    ensures
        r.0@ == join_path(out_dir@, "cover.jpg"@),
        strs(r.1@) == render_spec(
            thumbnail@,
            r.0@,
            square_filter_of(content_box(width, height, last_crop(lines(cropdetect_stderr@)))),
        ),
{
    let crop = parse_cropdetect(cropdetect_stderr);
    let filter = square_filter(width, height, crop);
    let output = join(out_dir, "cover.jpg");
    let args = render_args(thumbnail, output.as_str(), filter.as_str());
    (output, args)
}

/// Why ffprobe's answer held no image size.
#[derive(Debug, Clone, Copy, PartialEq, Eq, Structural)]
pub enum DimensionsError {
    /// The first line has no `,` between a width and a height.
    NoDimensions,
    /// The width or the height is not a number.
    NotANumber,
}

/// The first line of `s`, or the empty line when there is none.
pub open spec fn first_line(s: Seq<char>) -> Seq<char> {
    if lines(s).len() > 0 {
        lines(s)[0]
    } else {
        Seq::empty()
    }
}

/// The `width,height` that ffprobe's `csv=p=0` output starts with.
pub open spec fn dimensions_of(output: Seq<char>) -> Result<(u32, u32), DimensionsError> {
    let line = trim(first_line(output));
    match find_first(line, ","@) {
        None => Err(DimensionsError::NoDimensions),
        Some(i) => match parse_u32_spec(trim(line.take(i as int))) {
            None => Err(DimensionsError::NotANumber),
            Some(w) => match parse_u32_spec(trim(line.skip(i + 1 as int))) {
                None => Err(DimensionsError::NotANumber),
                Some(h) => Ok((w, h)),
            },
        },
    }
}

/// Read an image's dimensions out of what
/// `ffprobe -select_streams v:0 -show_entries stream=width,height -of csv=p=0`
/// printed.
pub fn dimensions(ffprobe_output: &str) -> (r: Result<(u32, u32), DimensionsError>)
    ensures
        r == dimensions_of(ffprobe_output@),
{
    let text = chars_of(ffprobe_output);
    let ls = lines_of(&text);
    let first: Vec<char> = if ls.len() > 0 {
        assert(ls@[0]@ == seqs_of(ls@)[0]);
        slice(&ls[0], 0, ls[0].len())
    } else {
        Vec::new()
    };
    assert(first@ =~= first_line(ffprobe_output@));
    let line = trim_ws(&first);
    let comma = chars_of(",");
    proof {
        reveal_strlit(",");
    }
    let n = line.len();
    match find(&line, &comma) {
        None => Err(DimensionsError::NoDimensions),
        Some(i) => {
            proof {
                lemma_find_from_found(line@, comma@, 0);
                assert(comma@.len() == 1);
                assert(occurs_at(line@, comma@, i as int));
                assert(i + 1 <= line@.len());
            }
            let left = slice(&line, 0, i);
            let right = slice(&line, i + 1, n);
            assert(left@ =~= line@.take(i as int));
            assert(right@ =~= line@.skip(i + 1 as int));
            match parse_u32(&trim_ws(&left)) {
                None => Err(DimensionsError::NotANumber),
                Some(w) => match parse_u32(&trim_ws(&right)) {
                    None => Err(DimensionsError::NotANumber),
                    Some(h) => Ok((w, h)),
                },
            }
        },
    }
}

} // verus!
